use websub_sub::feed::{Entry, Extension, Feed, MediaType, RawFeed, RssChannel, RssItem};

const ATOM: &str = r#"<?xml version="1.0" encoding="utf-8"?>
<feed xmlns="http://www.w3.org/2005/Atom" xmlns:media="http://search.yahoo.com/mrss/">
  <title>Example Feed</title>
  <id>urn:uuid:feed</id>
  <updated>2003-12-13T18:30:02Z</updated>
  <link rel="self" href="http://example.com/feed.xml"/>
  <link rel="hub" href="http://example.com/hub"/>
  <link rel="hub" href="http://example.com/hub2"/>
  <entry>
    <title>First</title>
    <id>urn:uuid:1</id>
    <updated>2003-12-13T18:30:02Z</updated>
    <link rel="related" href="http://example.com/related"/>
    <link rel="alternate" href="http://example.com/1"/>
    <summary>Summary one</summary>
  </entry>
  <entry>
    <title>Second</title>
    <id>urn:uuid:2</id>
    <updated>1970-01-01T00:00:10Z</updated>
    <link href="http://example.com/2"/>
    <media:group>
      <media:description>Group description</media:description>
    </media:group>
    <media:description>Entry description</media:description>
  </entry>
  <entry>
    <title>Third</title>
    <id>urn:uuid:3</id>
    <updated>1970-01-01T00:00:00Z</updated>
    <media:description>Entry description</media:description>
    <media:group>
      <media:description>Group description</media:description>
      <media:content url="http://example.com/v.mp4">
        <media:description>Content description</media:description>
      </media:content>
    </media:group>
  </entry>
</feed>
"#;

const RSS: &str = r#"<?xml version="1.0"?>
<rss version="2.0">
  <channel>
    <title>RSS Example</title>
    <link>http://example.com/</link>
    <description>Example channel</description>
    <item>
      <title>Item</title>
      <guid isPermaLink="true">http://example.com/item</guid>
      <description>Item description</description>
    </item>
    <item>
      <title>Other</title>
      <link>http://example.com/other</link>
      <guid isPermaLink="false">other-guid</guid>
    </item>
  </channel>
</rss>
"#;

#[test]
fn media_description() {
    let feed = Feed::parse(MediaType::Atom, ATOM.as_bytes()).unwrap();
    assert_eq!(feed.title, "Example Feed");
    assert_eq!(feed.id, "urn:uuid:feed");
    assert_eq!(feed.entries.len(), 3);
    let e = &feed.entries[0];
    assert_eq!(e.title.as_deref(), Some("First"));
    assert_eq!(e.link.as_deref(), Some("http://example.com/1"));
    assert_eq!(e.summary.as_deref(), Some("Summary one"));
    assert_eq!(e.updated, Some(1071340202));
    let e = &feed.entries[1];
    assert_eq!(e.link.as_deref(), Some("http://example.com/2"));
    assert_eq!(e.summary.as_deref(), Some("Group description"));
    assert_eq!(e.updated, Some(10));
    let e = &feed.entries[2];
    assert_eq!(e.link, None);
    assert_eq!(e.summary.as_deref(), Some("Content description"));
}

#[test]
fn parses_rss() {
    let feed = Feed::parse(MediaType::Rss, RSS.as_bytes()).unwrap();
    assert_eq!(feed.title, "RSS Example");
    assert_eq!(feed.id, "http://example.com/");
    assert_eq!(feed.entries.len(), 2);
    let e = &feed.entries[0];
    assert_eq!(e.id.as_deref(), Some("http://example.com/item"));
    assert_eq!(e.link.as_deref(), Some("http://example.com/item"));
    assert_eq!(e.summary.as_deref(), Some("Item description"));
    assert_eq!(e.updated, None);
    let e = &feed.entries[1];
    assert_eq!(e.link.as_deref(), Some("http://example.com/other"));
    assert_eq!(e.id.as_deref(), Some("other-guid"));
}

#[test]
fn generic_xml_tries_atom_then_rss() {
    assert_eq!(Feed::parse(MediaType::Xml, ATOM.as_bytes()).unwrap().title, "Example Feed");
    assert_eq!(Feed::parse(MediaType::Xml, RSS.as_bytes()).unwrap().title, "RSS Example");
    assert!(Feed::parse(MediaType::Atom, RSS.as_bytes()).is_none());
    assert!(Feed::parse(MediaType::Xml, b"not xml").is_none());
}

#[test]
fn media_types() {
    assert_eq!("application/atom+xml".parse::<MediaType>(), Ok(MediaType::Atom));
    assert_eq!("application/rss+xml; charset=utf-8".parse::<MediaType>(), Ok(MediaType::Rss));
    assert_eq!("application/rdf+xml".parse::<MediaType>(), Ok(MediaType::Rss));
    assert_eq!("text/xml".parse::<MediaType>(), Ok(MediaType::Xml));
    assert_eq!("application/xml".parse::<MediaType>(), Ok(MediaType::Xml));
    assert_eq!("Application/Atom+XML".parse::<MediaType>(), Ok(MediaType::Atom));
    assert_eq!("text/html".parse::<MediaType>(), Err(()));
    assert_eq!("nonsense".parse::<MediaType>(), Err(()));
}

#[test]
fn atom_meta() {
    let mut raw = RawFeed::parse(MediaType::Atom, ATOM.as_bytes()).unwrap();
    let before = Feed::from_raw(&mut RawFeed::parse(MediaType::Atom, ATOM.as_bytes()).unwrap());
    let meta = raw.take_meta();
    assert_eq!(meta.topic.as_deref(), Some("http://example.com/feed.xml"));
    assert_eq!(meta.hubs, vec!["http://example.com/hub".to_owned(), "http://example.com/hub2".to_owned()]);
    // The data is moved out of the document; the feed it gives is the same.
    match &raw {
        RawFeed::Atom(feed) => {
            for l in &feed.links {
                if l.rel == "self" || l.rel == "hub" {
                    assert_eq!(l.href, "");
                }
            }
        }
        RawFeed::Rss(_) => panic!("not an Atom document"),
    }
    let again = raw.take_meta();
    assert_eq!(again.topic.as_deref(), Some(""));
    assert_eq!(again.hubs, vec![String::new(), String::new()]);
    let after = Feed::from_raw(&mut raw);
    assert_eq!(after.title, before.title);
    assert_eq!(after.entries.len(), before.entries.len());
}

#[test]
fn content_types_of_pushed_bodies() {
    assert_eq!(MediaType::from_content_type(None), Ok(MediaType::Xml));
    assert_eq!(MediaType::from_content_type(Some("application/atom+xml")), Ok(MediaType::Atom));
    assert_eq!(MediaType::from_content_type(Some("image/png")), Err(()));
}

#[test]
fn rss_meta_from_atom_links() {
    let rss = r#"<?xml version="1.0"?>
<rss version="2.0" xmlns:atom="http://www.w3.org/2005/Atom">
  <channel>
    <title>T</title>
    <link>http://example.com/</link>
    <description>D</description>
    <atom:link rel="self" href="http://example.com/rss.xml"/>
    <atom:link rel="hub" href="http://example.com/hub"/>
  </channel>
</rss>
"#;
    let mut raw = RawFeed::parse(MediaType::Rss, rss.as_bytes()).unwrap();
    let meta = raw.take_meta();
    assert_eq!(meta.topic.as_deref(), Some("http://example.com/rss.xml"));
    assert_eq!(meta.hubs, vec!["http://example.com/hub".to_owned()]);
    // The `href`s are moved out: a second take finds nothing.
    let again = raw.take_meta();
    assert_eq!(again.topic, None);
    assert!(again.hubs.is_empty());
}

fn link(attrs: &[(&str, &str)]) -> Extension {
    Extension {
        name: "atom:link".to_owned(),
        value: None,
        attrs: attrs.iter().map(|(k, v)| (k.to_string(), v.to_string())).collect(),
        children: Vec::new(),
    }
}

#[test]
fn rss_meta_honours_inline_namespace_declarations() {
    let extensions = vec![
        (
            "a".to_owned(),
            vec![(
                "link".to_owned(),
                vec![
                    // Declared inline as something else: skipped.
                    link(&[("xmlns:a", "urn:other"), ("rel", "hub"), ("href", "http://skipped/")]),
                    // Declared inline as Atom.
                    link(&[("xmlns:a", "http://www.w3.org/2005/Atom"), ("rel", "hub"), ("href", "http://hub1/")]),
                    // A `self` link without `href` leaves the topic open.
                    link(&[("xmlns:a", "http://www.w3.org/2005/Atom"), ("rel", "self")]),
                ],
            )],
        ),
        (
            "b".to_owned(),
            vec![(
                "link".to_owned(),
                vec![
                    link(&[("rel", "self"), ("href", "http://topic/")]),
                    link(&[("rel", "hub"), ("href", "http://hub2/")]),
                ],
            )],
        ),
        // Not bound to Atom anywhere: skipped.
        ("c".to_owned(), vec![("link".to_owned(), vec![link(&[("rel", "hub"), ("href", "http://skipped2/")])])]),
    ];
    let channel = RssChannel {
        title: "T".to_owned(),
        link: "L".to_owned(),
        namespaces: vec![("b".to_owned(), "http://www.w3.org/2005/Atom".to_owned())],
        extensions,
        items: Vec::new(),
    };
    let mut raw = RawFeed::Rss(channel);
    let meta = raw.take_meta();
    assert_eq!(meta.topic.as_deref(), Some("http://topic/"));
    assert_eq!(meta.hubs, vec!["http://hub1/".to_owned(), "http://hub2/".to_owned()]);
    let RawFeed::Rss(channel) = raw else { panic!("not an RSS document") };
    let a = &channel.extensions[0].1[0].1;
    assert_eq!(a[0].attrs.len(), 3);
    assert_eq!(a[1].attrs, vec![("xmlns:a".to_owned(), "http://www.w3.org/2005/Atom".to_owned()), ("rel".to_owned(), "hub".to_owned())]);
    let b = &channel.extensions[1].1[0].1;
    assert_eq!(b[0].attrs, vec![("rel".to_owned(), "self".to_owned())]);
    assert_eq!(b[1].attrs, vec![("rel".to_owned(), "hub".to_owned())]);
    assert_eq!(channel.extensions[2].1[0].1[0].attrs.len(), 2);
}

#[test]
fn media_description_precedence_on_models() {
    let desc = |v: &str| Extension { name: "media:description".to_owned(), value: Some(v.to_owned()), attrs: Vec::new(), children: Vec::new() };
    let content = |v: &str| Extension {
        name: "media:content".to_owned(),
        value: None,
        attrs: Vec::new(),
        children: vec![("description".to_owned(), vec![desc(v)])],
    };
    let namespaces = vec![("m".to_owned(), "http://search.yahoo.com/mrss/".to_owned())];
    let item = |extensions| RssItem { title: None, link: None, description: None, guid: None, content: None, extensions };
    // The item description alone; it is moved out of the item.
    let mut it = item(vec![("m".to_owned(), vec![("description".to_owned(), vec![desc("item")])])]);
    let e = Entry::from_rss(&mut it, &namespaces);
    assert_eq!(e.summary.as_deref(), Some("item"));
    assert_eq!(it.extensions[0].1[0].1[0].value, None);
    assert_eq!(Entry::from_rss(&mut it, &namespaces).summary, None);
    // A content description wins over the item description, wherever it comes; only the
    // content description is moved out.
    let mut it = item(vec![("m".to_owned(), vec![("content".to_owned(), vec![content("content")]), ("description".to_owned(), vec![desc("item")])])]);
    let e = Entry::from_rss(&mut it, &namespaces);
    assert_eq!(e.summary.as_deref(), Some("content"));
    assert_eq!(it.extensions[0].1[0].1[0].children[0].1[0].value, None);
    assert_eq!(it.extensions[0].1[1].1[0].value.as_deref(), Some("item"));
    assert_eq!(Entry::from_rss(&mut it, &namespaces).summary.as_deref(), Some("item"));
    // A prefix that is not bound to Media RSS is ignored, and left as it was.
    let mut it = item(vec![("x".to_owned(), vec![("description".to_owned(), vec![desc("other")])])]);
    let e = Entry::from_rss(&mut it, &namespaces);
    assert_eq!(e.summary, None);
    assert_eq!(it.extensions[0].1[0].1[0].value.as_deref(), Some("other"));
    // An item with a description of its own keeps its extensions.
    let mut it = item(vec![("m".to_owned(), vec![("description".to_owned(), vec![desc("item")])])]);
    it.description = Some("own".to_owned());
    assert_eq!(Entry::from_rss(&mut it, &namespaces).summary.as_deref(), Some("own"));
    assert_eq!(it.extensions[0].1[0].1[0].value.as_deref(), Some("item"));
}

#[test]
fn media_types_from_components() {
    let s = |x: &str| x.to_owned();
    assert!(matches!(MediaType::from_components(&s("application"), &s("atom"), &Some(s("xml"))), Ok(MediaType::Atom)));
    assert!(matches!(MediaType::from_components(&s("application"), &s("RDF"), &Some(s("xml"))), Ok(MediaType::Rss)));
    assert!(matches!(MediaType::from_components(&s("text"), &s("xml"), &None), Ok(MediaType::Xml)));
    assert!(MediaType::from_components(&s("text"), &s("atom"), &Some(s("xml"))).is_err());
    assert!(MediaType::from_components(&s("application"), &s("rss"), &None).is_err());
}
