//! Checking the body of an update against the hub's signature.
use vstd::prelude::*;

use crate::signature::{hmac_of, Algorithm, Signature, SignatureMismatch, Verifier};

verus! {

/// The checker of the HTTP request body of an `Update`.
///
/// Every chunk of the body goes through `absorb` as it is read, unchanged; `finish` at the end
/// of the body tells whether the HMAC of the whole body matches the hub's signature. The body
/// must not be trusted until `finish` has returned `Ok`.
#[derive(Debug)]
pub struct Content {
    verifier: Verifier,
}

impl Content {
    /// The digest algorithm.
    pub closed spec fn algorithm(&self) -> Algorithm {
        self.verifier.algorithm()
    }

    /// The digest the hub sent.
    pub closed spec fn expected(&self) -> Seq<u8> {
        self.verifier.expected()
    }

    /// The subscription's secret.
    pub closed spec fn key(&self) -> Seq<u8> {
        self.verifier.key()
    }

    /// The body read so far.
    pub closed spec fn body(&self) -> Seq<u8> {
        self.verifier.absorbed()
    }

    /// Starts checking a body against `signature` with the subscription's secret.
    pub fn new(signature: Signature, secret: &[u8]) -> (r: Content)
        ensures
            r.algorithm() == signature.algorithm(),
            r.expected() == signature.digest(),
            r.key() == secret@,
            r.body() == Seq::<u8>::empty(),
    {
        Content { verifier: signature.verify_with(secret) }
    }

    /// Takes in the next chunk of the body.
    pub fn absorb(&mut self, chunk: &[u8])
        ensures
            final(self).body() == old(self).body() + chunk@,
            final(self).algorithm() == old(self).algorithm(),
            final(self).expected() == old(self).expected(),
            final(self).key() == old(self).key(),
    {
        self.verifier.update(chunk);
    }

    /// At the end of the body: whether the body is what the hub signed.
    pub fn finish(&mut self) -> (r: Result<(), SignatureMismatch>)
        ensures
            r is Ok <==> hmac_of(old(self).algorithm(), old(self).key(), old(self).body())
                == old(self).expected(),
            final(self).body() == Seq::<u8>::empty(),
            final(self).algorithm() == old(self).algorithm(),
            final(self).expected() == old(self).expected(),
            final(self).key() == old(self).key(),
    {
        self.verifier.verify_reset()
    }
}

} // verus!
