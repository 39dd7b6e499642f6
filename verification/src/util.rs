pub mod backoff;
pub mod callback_id;
