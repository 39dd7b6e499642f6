//! Feeds: what the subscriber reads out of the Atom and RSS documents that hubs distribute.
use vstd::prelude::*;
use vstd::string::{StringExecFns, StringSliceAdditionalSpecFns};
use std::collections::BTreeMap;
use atom_syndication::Entry as AtomSourceEntry;
use atom_syndication::Feed as AtomSourceFeed;
use atom_syndication::extension::Extension as AtomSourceExtension;
use rss::extension::Extension as RssSourceExtension;

use crate::hub::opt_view;

verus! {

// ---------------------------------------------------------------------------------------------
// Documents as the parsers give them
/// An extension element (a foreign element such as `media:description`).
pub struct Extension {
    pub name: String,
    pub value: Option<String>,
    pub attrs: Vec<(String, String)>,
    pub children: Vec<(String, Vec<Extension>)>,
}

/// Extension elements by namespace prefix, then by name, in the order of the parsers' maps.
pub type ExtensionMap = Vec<(String, Vec<(String, Vec<Extension>)>)>;

/// A link of an Atom feed or entry.
pub struct AtomLink {
    pub rel: String,
    pub href: String,
}

/// An entry of an Atom feed, as far as the subscriber reads it.
pub struct AtomEntry {
    pub title: String,
    pub id: String,
    /// The `updated` time as a Unix timestamp.
    pub updated: i64,
    pub links: Vec<AtomLink>,
    pub summary: Option<String>,
    /// The value of the `content` element.
    pub content: Option<String>,
    pub extensions: ExtensionMap,
}

/// An Atom feed, as far as the subscriber reads it.
pub struct AtomFeed {
    pub title: String,
    pub id: String,
    pub links: Vec<AtomLink>,
    /// Namespace declarations, by prefix.
    pub namespaces: Vec<(String, String)>,
    pub entries: Vec<AtomEntry>,
}

/// The `guid` of an RSS item.
pub struct RssGuid {
    pub value: String,
    pub permalink: bool,
}

/// An item of an RSS channel, as far as the subscriber reads it.
pub struct RssItem {
    pub title: Option<String>,
    pub link: Option<String>,
    pub description: Option<String>,
    pub guid: Option<RssGuid>,
    pub content: Option<String>,
    pub extensions: ExtensionMap,
}

/// An RSS channel, as far as the subscriber reads it.
pub struct RssChannel {
    pub title: String,
    pub link: String,
    /// Namespace declarations, by prefix.
    pub namespaces: Vec<(String, String)>,
    pub extensions: ExtensionMap,
    pub items: Vec<RssItem>,
}

/// The first value that `f` gives for the items of `s`, in order.
pub open spec fn first_some<A>(s: Seq<A>, f: spec_fn(A) -> Option<Seq<char>>) -> Option<Seq<char>>
    decreases s.len(),
{
    if s.len() == 0 {
        None
    } else {
        match f(s[0]) {
            Some(v) => Some(v),
            None => first_some(s.drop_first(), f),
        }
    }
}

/// `a`, or else `b`.
pub open spec fn or_else(a: Option<Seq<char>>, b: Option<Seq<char>>) -> Option<Seq<char>> {
    match a {
        Some(v) => Some(v),
        None => b,
    }
}

proof fn lemma_first_some_extend<A>(s: Seq<A>, f: spec_fn(A) -> Option<Seq<char>>, i: int)
    requires
        0 <= i < s.len(),
    ensures
        first_some(s.subrange(0, i + 1), f) == or_else(first_some(s.subrange(0, i), f), f(s[i])),
    decreases i,
{
    if i > 0 {
        lemma_first_some_extend(s.drop_first(), f, i - 1);
        assert(s.subrange(0, i + 1).drop_first() =~= s.drop_first().subrange(0, i));
        assert(s.subrange(0, i).drop_first() =~= s.drop_first().subrange(0, i - 1));
        assert(s.subrange(0, i + 1)[0] == s[0]);
        assert(s.subrange(0, i)[0] == s[0]);
        assert(s.drop_first()[i - 1] == s[i]);
        let a = s.subrange(0, i + 1);
        let b = s.subrange(0, i);
        assert(first_some(a, f) == match f(a[0]) {
            Some(v) => Some(v),
            None => first_some(a.drop_first(), f),
        });
        assert(first_some(b, f) == match f(b[0]) {
            Some(v) => Some(v),
            None => first_some(b.drop_first(), f),
        });
    } else {
        assert(s.subrange(0, 1).drop_first() =~= Seq::<A>::empty());
        assert(s.subrange(0, 1)[0] == s[0]);
        assert(s.subrange(0, 0).len() == 0);
        assert(first_some(s.subrange(0, 1).drop_first(), f) is None);
        assert(first_some(s.subrange(0, 0), f) is None);
    }
}

proof fn lemma_first_some_whole<A>(s: Seq<A>, f: spec_fn(A) -> Option<Seq<char>>)
    ensures
        first_some(s.subrange(0, s.len() as int), f) == first_some(s, f),
        first_some(s.subrange(0, 0), f) is None,
{
    assert(s.subrange(0, s.len() as int) =~= s);
}

/// The value that a lookup of `key` finds in a map given as its pairs.
pub open spec fn lookup(pairs: Seq<(String, String)>, key: Seq<char>) -> Option<Seq<char>> {
    first_some(pairs, |p: (String, String)| if p.0@ == key { Some(p.1@) } else { None })
}

/// The Media RSS namespace.
pub open spec fn ns_mrss() -> Seq<char> {
    "http://search.yahoo.com/mrss/"@
}

/// The Atom namespace.
pub open spec fn ns_atom() -> Seq<char> {
    "http://www.w3.org/2005/Atom"@
}

// ---------------------------------------------------------------------------------------------
// Media RSS descriptions
/// The first value among the elements.
pub open spec fn first_value(elms: Seq<Extension>) -> Option<Seq<char>> {
    first_some(elms, |e: Extension| opt_view(e.value))
}

/// The value of the first `description` child of an element that has one.
pub open spec fn child_description(e: Extension) -> Option<Seq<char>> {
    first_some(
        e.children@,
        |p: (String, Vec<Extension>)| if p.0@ == "description"@ { first_value(p.1@) } else { None },
    )
}

/// The description of the first `media:content` element that has one.
pub open spec fn content_description(elms: Seq<Extension>) -> Option<Seq<char>> {
    first_some(elms, |e: Extension| child_description(e))
}

/// The first content description among the `content` children of a `media:group` element.
pub open spec fn group_content(e: Extension) -> Option<Seq<char>> {
    first_some(
        e.children@,
        |p: (String, Vec<Extension>)| if p.0@ == "content"@ { content_description(p.1@) } else { None },
    )
}

/// The content description that an entry of a Media RSS map holds.
pub open spec fn content_of_entry(p: (String, Vec<Extension>)) -> Option<Seq<char>> {
    if p.0@ == "content"@ {
        content_description(p.1@)
    } else if p.0@ == "group"@ {
        first_some(p.1@, |e: Extension| group_content(e))
    } else {
        None
    }
}

/// The group description that an entry of a Media RSS map holds.
pub open spec fn group_description_of_entry(p: (String, Vec<Extension>)) -> Option<Seq<char>> {
    if p.0@ == "group"@ {
        first_some(p.1@, |e: Extension| child_description(e))
    } else {
        None
    }
}

/// The item description that an entry of a Media RSS map holds.
pub open spec fn description_of_entry(p: (String, Vec<Extension>)) -> Option<Seq<char>> {
    if p.0@ == "description"@ {
        first_value(p.1@)
    } else {
        None
    }
}

/// Whether a prefix is bound to the Media RSS namespace.
pub open spec fn is_mrss(namespaces: Seq<(String, String)>, prefix: Seq<char>) -> bool {
    lookup(namespaces, prefix) == Some(ns_mrss())
}

/// The first value that `f` gives for the entries of the Media RSS maps, in order.
pub open spec fn in_mrss(
    ext: Seq<(String, Vec<(String, Vec<Extension>)>)>,
    namespaces: Seq<(String, String)>,
    f: spec_fn((String, Vec<Extension>)) -> Option<Seq<char>>,
) -> Option<Seq<char>> {
    first_some(
        ext,
        |m: (String, Vec<(String, Vec<Extension>)>)|
            if is_mrss(namespaces, m.0@) { first_some(m.1@, f) } else { None },
    )
}

/// The `media:description` of an entry or item: the description of a `media:content` element
/// (directly or in a `media:group`) takes the strongest precedence, then that of a
/// `media:group`, then that of the entry itself.
pub open spec fn media_description(
    ext: Seq<(String, Vec<(String, Vec<Extension>)>)>,
    namespaces: Seq<(String, String)>,
) -> Option<Seq<char>> {
    or_else(
        in_mrss(ext, namespaces, |p: (String, Vec<Extension>)| content_of_entry(p)),
        or_else(
            in_mrss(ext, namespaces, |p: (String, Vec<Extension>)| group_description_of_entry(p)),
            in_mrss(ext, namespaces, |p: (String, Vec<Extension>)| description_of_entry(p)),
        ),
    )
}

/// Clones an optional string.
fn clone_opt(o: &Option<String>) -> (r: Option<String>)
    ensures
        opt_view(r) == opt_view(*o),
{
    match o {
        Some(s) => Some(s.clone()),
        None => None,
    }
}

/// The first value among the elements.
fn find_first_value(elms: &Vec<Extension>) -> (r: Option<String>)
    ensures
        opt_view(r) == first_value(elms@),
{
    let ghost f = |e: Extension| opt_view(e.value);
    let mut i: usize = 0;
    proof {
        lemma_first_some_whole(elms@, f);
    }
    while i < elms.len()
        invariant
            i <= elms@.len(),
            f == (|e: Extension| opt_view(e.value)),
            first_some(elms@.subrange(0, i as int), f) is None,
        decreases elms@.len() - i,
    {
        proof {
            lemma_first_some_extend(elms@, f, i as int);
        }
        if elms[i].value.is_some() {
            proof {
                lemma_first_some_prefix(elms@, f, i as int);
            }
            return clone_opt(&elms[i].value);
        }
        i = i + 1;
    }
    proof {
        lemma_first_some_whole(elms@, f);
    }
    None
}

/// Where the first `i + 1` items give a value, the whole sequence gives the same.
proof fn lemma_first_some_prefix<A>(s: Seq<A>, f: spec_fn(A) -> Option<Seq<char>>, i: int)
    requires
        0 <= i < s.len(),
        first_some(s.subrange(0, i), f) is None,
        f(s[i]) is Some,
    ensures
        first_some(s, f) == f(s[i]),
    decreases i,
{
    if i > 0 {
        assert(s.subrange(0, i).drop_first() =~= s.drop_first().subrange(0, i - 1));
        assert(s.subrange(0, i)[0] == s[0]);
        lemma_first_some_prefix(s.drop_first(), f, i - 1);
    }
}

/// Whether a string is the given text.
fn is_named(s: &String, text: &str) -> (r: bool)
    ensures
        r == (s@ == text@),
{
    *s == String::from_str(text)
}

/// The value of the first `description` child of an element that has one.
fn find_child_description(e: &Extension) -> (r: Option<String>)
    ensures
        opt_view(r) == child_description(*e),
{
    let ghost f = |p: (String, Vec<Extension>)| if p.0@ == "description"@ { first_value(p.1@) } else { None };
    let mut i: usize = 0;
    proof {
        lemma_first_some_whole(e.children@, f);
    }
    while i < e.children.len()
        invariant
            i <= e.children@.len(),
            f == (|p: (String, Vec<Extension>)| if p.0@ == "description"@ { first_value(p.1@) } else { None }),
            first_some(e.children@.subrange(0, i as int), f) is None,
        decreases e.children@.len() - i,
    {
        proof {
            lemma_first_some_extend(e.children@, f, i as int);
        }
        if is_named(&e.children[i].0, "description") {
            let v = find_first_value(&e.children[i].1);
            if v.is_some() {
                proof {
                    lemma_first_some_prefix(e.children@, f, i as int);
                }
                return v;
            }
        }
        i = i + 1;
    }
    proof {
        lemma_first_some_whole(e.children@, f);
    }
    None
}

/// The description of the first `media:content` element that has one.
fn find_content_description(elms: &Vec<Extension>) -> (r: Option<String>)
    ensures
        opt_view(r) == content_description(elms@),
{
    let ghost f = |e: Extension| child_description(e);
    let mut i: usize = 0;
    proof {
        lemma_first_some_whole(elms@, f);
    }
    while i < elms.len()
        invariant
            i <= elms@.len(),
            f == (|e: Extension| child_description(e)),
            first_some(elms@.subrange(0, i as int), f) is None,
        decreases elms@.len() - i,
    {
        proof {
            lemma_first_some_extend(elms@, f, i as int);
        }
        let v = find_child_description(&elms[i]);
        if v.is_some() {
            proof {
                lemma_first_some_prefix(elms@, f, i as int);
            }
            return v;
        }
        i = i + 1;
    }
    proof {
        lemma_first_some_whole(elms@, f);
    }
    None
}

/// The first content description among the `content` children of a `media:group` element.
fn find_group_content(e: &Extension) -> (r: Option<String>)
    ensures
        opt_view(r) == group_content(*e),
{
    let ghost f = |p: (String, Vec<Extension>)| if p.0@ == "content"@ { content_description(p.1@) } else { None };
    let mut i: usize = 0;
    proof {
        lemma_first_some_whole(e.children@, f);
    }
    while i < e.children.len()
        invariant
            i <= e.children@.len(),
            f == (|p: (String, Vec<Extension>)| if p.0@ == "content"@ { content_description(p.1@) } else { None }),
            first_some(e.children@.subrange(0, i as int), f) is None,
        decreases e.children@.len() - i,
    {
        proof {
            lemma_first_some_extend(e.children@, f, i as int);
        }
        if is_named(&e.children[i].0, "content") {
            let v = find_content_description(&e.children[i].1);
            if v.is_some() {
                proof {
                    lemma_first_some_prefix(e.children@, f, i as int);
                }
                return v;
            }
        }
        i = i + 1;
    }
    proof {
        lemma_first_some_whole(e.children@, f);
    }
    None
}

/// The first value that one of the element functions gives for a sequence of elements.
fn find_in_elements(elms: &Vec<Extension>, group: bool) -> (r: Option<String>)
    ensures
        group ==> opt_view(r) == first_some(elms@, |e: Extension| group_content(e)),
        !group ==> opt_view(r) == first_some(elms@, |e: Extension| child_description(e)),
{
    let ghost f = if group {
        |e: Extension| group_content(e)
    } else {
        |e: Extension| child_description(e)
    };
    let mut i: usize = 0;
    proof {
        lemma_first_some_whole(elms@, f);
    }
    while i < elms.len()
        invariant
            i <= elms@.len(),
            f == if group {
                |e: Extension| group_content(e)
            } else {
                |e: Extension| child_description(e)
            },
            first_some(elms@.subrange(0, i as int), f) is None,
        decreases elms@.len() - i,
    {
        proof {
            lemma_first_some_extend(elms@, f, i as int);
        }
        let v = if group {
            find_group_content(&elms[i])
        } else {
            find_child_description(&elms[i])
        };
        if v.is_some() {
            proof {
                lemma_first_some_prefix(elms@, f, i as int);
            }
            return v;
        }
        i = i + 1;
    }
    proof {
        lemma_first_some_whole(elms@, f);
    }
    None
}

/// Which of the three descriptions of a Media RSS map is looked for.
pub enum DescriptionKind {
    Content,
    Group,
    Item,
}

/// The function that finds a description of the kind in an entry of a Media RSS map.
pub open spec fn entry_description(kind: DescriptionKind) -> spec_fn((String, Vec<Extension>)) -> Option<Seq<char>> {
    match kind {
        DescriptionKind::Content => |p: (String, Vec<Extension>)| content_of_entry(p),
        DescriptionKind::Group => |p: (String, Vec<Extension>)| group_description_of_entry(p),
        DescriptionKind::Item => |p: (String, Vec<Extension>)| description_of_entry(p),
    }
}

fn find_entry_description(kind: &DescriptionKind, p: &(String, Vec<Extension>)) -> (r: Option<String>)
    ensures
        opt_view(r) == entry_description(*kind)(*p),
{
    match kind {
        DescriptionKind::Content => {
            if is_named(&p.0, "content") {
                find_content_description(&p.1)
            } else if is_named(&p.0, "group") {
                find_in_elements(&p.1, true)
            } else {
                None
            }
        },
        DescriptionKind::Group => {
            if is_named(&p.0, "group") {
                find_in_elements(&p.1, false)
            } else {
                None
            }
        },
        DescriptionKind::Item => {
            if is_named(&p.0, "description") {
                find_first_value(&p.1)
            } else {
                None
            }
        },
    }
}

/// Looks a key up in a map given as its pairs.
fn lookup_exec(pairs: &Vec<(String, String)>, key: &String) -> (r: Option<String>)
    ensures
        opt_view(r) == lookup(pairs@, key@),
{
    let ghost f = |p: (String, String)| if p.0@ == key@ { Some(p.1@) } else { None };
    let mut i: usize = 0;
    proof {
        lemma_first_some_whole(pairs@, f);
    }
    while i < pairs.len()
        invariant
            i <= pairs@.len(),
            f == (|p: (String, String)| if p.0@ == key@ { Some(p.1@) } else { None }),
            first_some(pairs@.subrange(0, i as int), f) is None,
        decreases pairs@.len() - i,
    {
        proof {
            lemma_first_some_extend(pairs@, f, i as int);
        }
        if pairs[i].0 == *key {
            proof {
                lemma_first_some_prefix(pairs@, f, i as int);
            }
            return Some(pairs[i].1.clone());
        }
        i = i + 1;
    }
    proof {
        lemma_first_some_whole(pairs@, f);
    }
    None
}

/// The first description of the kind in the Media RSS maps.
fn find_in_mrss(extensions: &ExtensionMap, namespaces: &Vec<(String, String)>, kind: &DescriptionKind) -> (r: Option<String>)
    ensures
        opt_view(r) == in_mrss(extensions@, namespaces@, entry_description(*kind)),
{
    let ghost g = entry_description(*kind);
    let ghost f = |m: (String, Vec<(String, Vec<Extension>)>)|
        if is_mrss(namespaces@, m.0@) { first_some(m.1@, g) } else { None };
    let mrss = String::from_str("http://search.yahoo.com/mrss/");
    let mut i: usize = 0;
    proof {
        lemma_first_some_whole(extensions@, f);
    }
    while i < extensions.len()
        invariant
            i <= extensions@.len(),
            g == entry_description(*kind),
            mrss@ == ns_mrss(),
            f == (|m: (String, Vec<(String, Vec<Extension>)>)|
                if is_mrss(namespaces@, m.0@) { first_some(m.1@, g) } else { None }),
            first_some(extensions@.subrange(0, i as int), f) is None,
        decreases extensions@.len() - i,
    {
        proof {
            lemma_first_some_extend(extensions@, f, i as int);
        }
        let ns = lookup_exec(namespaces, &extensions[i].0);
        let is_mrss_prefix = match &ns {
            Some(n) => *n == mrss,
            None => false,
        };
        if is_mrss_prefix {
            let map = &extensions[i].1;
            let mut j: usize = 0;
            proof {
                lemma_first_some_whole(map@, g);
            }
            while j < map.len()
                invariant
                    j <= map@.len(),
                    i < extensions@.len(),
                    *map == extensions@[i as int].1,
                    is_mrss(namespaces@, extensions@[i as int].0@),
                    g == entry_description(*kind),
                    mrss@ == ns_mrss(),
                    f == (|m: (String, Vec<(String, Vec<Extension>)>)|
                        if is_mrss(namespaces@, m.0@) { first_some(m.1@, g) } else { None }),
                    first_some(extensions@.subrange(0, i as int), f) is None,
                    first_some(map@.subrange(0, j as int), g) is None,
                decreases map@.len() - j,
            {
                proof {
                    lemma_first_some_extend(map@, g, j as int);
                }
                let v = find_entry_description(kind, &map[j]);
                if v.is_some() {
                    proof {
                        lemma_first_some_prefix(map@, g, j as int);
                        lemma_first_some_prefix(extensions@, f, i as int);
                    }
                    return v;
                }
                j = j + 1;
            }
            proof {
                lemma_first_some_whole(map@, g);
            }
        }
        i = i + 1;
    }
    proof {
        lemma_first_some_whole(extensions@, f);
    }
    None
}

/// Whether `after` is `before` with the item at one index changed as `changed` says, and the
/// others as they were.
pub open spec fn one_changed<A>(before: Seq<A>, after: Seq<A>, changed: spec_fn(A, A) -> bool) -> bool {
    &&& after.len() == before.len()
    &&& exists|k: int| 0 <= k < before.len() && #[trigger] changed(before[k], after[k])
        && forall|t: int| 0 <= t < before.len() && t != k ==> after[t] == before[t]
}

/// Whether `y` is the element `x`, which holds the value `v`, with the value taken out.
pub open spec fn value_cleared(x: Extension, y: Extension, v: Seq<char>) -> bool {
    opt_view(x.value) == Some(v) && y == Extension { value: None, ..x }
}

/// Whether one of the elements lost its value `v`, and nothing else changed.
pub open spec fn values_cleared(a: Seq<Extension>, b: Seq<Extension>, v: Seq<char>) -> bool {
    one_changed(a, b, |x: Extension, y: Extension| value_cleared(x, y, v))
}

/// Whether `y` is `x` with the elements of one of its child entries changed as `inner` says,
/// and nothing else changed.
pub open spec fn children_changed(x: Extension, y: Extension, inner: spec_fn(Seq<Extension>, Seq<Extension>) -> bool) -> bool {
    &&& y == Extension { children: y.children, ..x }
    &&& one_changed(
        x.children@,
        y.children@,
        |p: (String, Vec<Extension>), q: (String, Vec<Extension>)| q.0 == p.0 && inner(p.1@, q.1@),
    )
}

/// Whether a description child of the element lost its value `v`, and nothing else changed.
pub open spec fn child_cleared(x: Extension, y: Extension, v: Seq<char>) -> bool {
    children_changed(x, y, |a: Seq<Extension>, b: Seq<Extension>| values_cleared(a, b, v))
}

/// Whether a description child of one of the elements lost its value `v`, and nothing else
/// changed.
pub open spec fn contents_cleared(a: Seq<Extension>, b: Seq<Extension>, v: Seq<char>) -> bool {
    one_changed(a, b, |x: Extension, y: Extension| child_cleared(x, y, v))
}

/// Whether the description of a content child of the element lost its value `v`, and nothing
/// else changed.
pub open spec fn group_content_cleared(x: Extension, y: Extension, v: Seq<char>) -> bool {
    children_changed(x, y, |a: Seq<Extension>, b: Seq<Extension>| contents_cleared(a, b, v))
}

/// Whether the description of a content child of one of the elements lost its value `v`, and
/// nothing else changed.
pub open spec fn groups_cleared(a: Seq<Extension>, b: Seq<Extension>, v: Seq<char>) -> bool {
    one_changed(a, b, |x: Extension, y: Extension| group_content_cleared(x, y, v))
}

/// Whether a description in the entry of a Media RSS map lost its value `v`, and nothing else
/// changed.
pub open spec fn entry_cleared(p: (String, Vec<Extension>), q: (String, Vec<Extension>), v: Seq<char>) -> bool {
    q.0 == p.0 && (values_cleared(p.1@, q.1@, v) || contents_cleared(p.1@, q.1@, v) || groups_cleared(p.1@, q.1@, v))
}

/// Whether a `media:description` value `v` was taken out of the extensions: one description
/// under a prefix bound to Media RSS lost its value, and nothing else changed.
pub open spec fn description_cleared(
    namespaces: Seq<(String, String)>,
    before: Seq<(String, Vec<(String, Vec<Extension>)>)>,
    after: Seq<(String, Vec<(String, Vec<Extension>)>)>,
    v: Seq<char>,
) -> bool {
    one_changed(
        before,
        after,
        |m0: (String, Vec<(String, Vec<Extension>)>), m1: (String, Vec<(String, Vec<Extension>)>)|
            m1.0 == m0.0 && is_mrss(namespaces, m0.0@) && one_changed(
                m0.1@,
                m1.1@,
                |p: (String, Vec<Extension>), q: (String, Vec<Extension>)| entry_cleared(p, q, v),
            ),
    )
}

/// Takes the first value among the elements out.
fn clear_first_value(elms: &mut Vec<Extension>) -> (r: String)
    requires
        first_value(old(elms)@) is Some,
    ensures
        first_value(old(elms)@) == Some(r@),
        values_cleared(old(elms)@, final(elms)@, r@),
{
    let ghost e0 = elms@;
    let ghost f = |e: Extension| opt_view(e.value);
    let mut i: usize = 0;
    proof {
        lemma_first_some_whole(e0, f);
    }
    while i < elms.len()
        invariant
            e0 == old(elms)@,
            elms@ == e0,
            i <= e0.len(),
            f == (|e: Extension| opt_view(e.value)),
            first_some(e0.subrange(0, i as int), f) is None,
            first_some(e0, f) is Some,
        decreases e0.len() - i,
    {
        proof {
            lemma_first_some_extend(e0, f, i as int);
        }
        if elms[i].value.is_some() {
            proof {
                lemma_first_some_prefix(e0, f, i as int);
            }
            let v = match &elms[i].value {
                Some(v) => v.clone(),
                None => String::new(),
            };
            elms[i].value = None;
            proof {
                let c = |x: Extension, y: Extension| value_cleared(x, y, v@);
                assert(c(e0[i as int], elms@[i as int]));
            }
            return v;
        }
        i = i + 1;
    }
    proof {
        lemma_first_some_whole(e0, f);
    }
    String::new()
}

/// Takes the value of the first `description` child of the element out.
fn clear_child_description(e: &mut Extension) -> (r: String)
    requires
        child_description(*old(e)) is Some,
    ensures
        child_description(*old(e)) == Some(r@),
        child_cleared(*old(e), *final(e), r@),
{
    let ghost x = *e;
    let ghost c0 = e.children@;
    let ghost f = |p: (String, Vec<Extension>)| if p.0@ == "description"@ { first_value(p.1@) } else { None };
    let mut i: usize = 0;
    proof {
        lemma_first_some_whole(c0, f);
    }
    while i < e.children.len()
        invariant
            x == *old(e),
            *e == x,
            c0 == x.children@,
            i <= c0.len(),
            f == (|p: (String, Vec<Extension>)| if p.0@ == "description"@ { first_value(p.1@) } else { None }),
            first_some(c0.subrange(0, i as int), f) is None,
            first_some(c0, f) is Some,
        decreases c0.len() - i,
    {
        proof {
            lemma_first_some_extend(c0, f, i as int);
        }
        if is_named(&e.children[i].0, "description") && find_first_value(&e.children[i].1).is_some() {
            proof {
                lemma_first_some_prefix(c0, f, i as int);
            }
            let v = clear_first_value(&mut e.children[i].1);
            proof {
                let inner = |a: Seq<Extension>, b: Seq<Extension>| values_cleared(a, b, v@);
                let c = |p: (String, Vec<Extension>), q: (String, Vec<Extension>)| q.0 == p.0 && inner(p.1@, q.1@);
                assert(c(c0[i as int], e.children@[i as int]));
                assert(one_changed(c0, e.children@, c));
            }
            return v;
        }
        i = i + 1;
    }
    proof {
        lemma_first_some_whole(c0, f);
    }
    String::new()
}

/// Takes the description of the first element that has a `description` child out.
fn clear_content_description(elms: &mut Vec<Extension>) -> (r: String)
    requires
        content_description(old(elms)@) is Some,
    ensures
        content_description(old(elms)@) == Some(r@),
        contents_cleared(old(elms)@, final(elms)@, r@),
{
    let ghost e0 = elms@;
    let ghost f = |e: Extension| child_description(e);
    let mut i: usize = 0;
    proof {
        lemma_first_some_whole(e0, f);
    }
    while i < elms.len()
        invariant
            e0 == old(elms)@,
            elms@ == e0,
            i <= e0.len(),
            f == (|e: Extension| child_description(e)),
            first_some(e0.subrange(0, i as int), f) is None,
            first_some(e0, f) is Some,
        decreases e0.len() - i,
    {
        proof {
            lemma_first_some_extend(e0, f, i as int);
        }
        if find_child_description(&elms[i]).is_some() {
            proof {
                lemma_first_some_prefix(e0, f, i as int);
            }
            let v = clear_child_description(&mut elms[i]);
            proof {
                let c = |x: Extension, y: Extension| child_cleared(x, y, v@);
                assert(c(e0[i as int], elms@[i as int]));
            }
            return v;
        }
        i = i + 1;
    }
    proof {
        lemma_first_some_whole(e0, f);
    }
    String::new()
}

/// Takes the first content description among the `content` children of the element out.
fn clear_group_content(e: &mut Extension) -> (r: String)
    requires
        group_content(*old(e)) is Some,
    ensures
        group_content(*old(e)) == Some(r@),
        group_content_cleared(*old(e), *final(e), r@),
{
    let ghost x = *e;
    let ghost c0 = e.children@;
    let ghost f = |p: (String, Vec<Extension>)| if p.0@ == "content"@ { content_description(p.1@) } else { None };
    let mut i: usize = 0;
    proof {
        lemma_first_some_whole(c0, f);
    }
    while i < e.children.len()
        invariant
            x == *old(e),
            *e == x,
            c0 == x.children@,
            i <= c0.len(),
            f == (|p: (String, Vec<Extension>)| if p.0@ == "content"@ { content_description(p.1@) } else { None }),
            first_some(c0.subrange(0, i as int), f) is None,
            first_some(c0, f) is Some,
        decreases c0.len() - i,
    {
        proof {
            lemma_first_some_extend(c0, f, i as int);
        }
        if is_named(&e.children[i].0, "content") && find_content_description(&e.children[i].1).is_some() {
            proof {
                lemma_first_some_prefix(c0, f, i as int);
            }
            let v = clear_content_description(&mut e.children[i].1);
            proof {
                let inner = |a: Seq<Extension>, b: Seq<Extension>| contents_cleared(a, b, v@);
                let c = |p: (String, Vec<Extension>), q: (String, Vec<Extension>)| q.0 == p.0 && inner(p.1@, q.1@);
                assert(c(c0[i as int], e.children@[i as int]));
                assert(one_changed(c0, e.children@, c));
            }
            return v;
        }
        i = i + 1;
    }
    proof {
        lemma_first_some_whole(c0, f);
    }
    String::new()
}

/// Takes the first content description of the `media:group` elements out.
fn clear_groups(elms: &mut Vec<Extension>) -> (r: String)
    requires
        first_some(old(elms)@, |e: Extension| group_content(e)) is Some,
    ensures
        first_some(old(elms)@, |e: Extension| group_content(e)) == Some(r@),
        groups_cleared(old(elms)@, final(elms)@, r@),
{
    let ghost e0 = elms@;
    let ghost f = |e: Extension| group_content(e);
    let mut i: usize = 0;
    proof {
        lemma_first_some_whole(e0, f);
    }
    while i < elms.len()
        invariant
            e0 == old(elms)@,
            elms@ == e0,
            i <= e0.len(),
            f == (|e: Extension| group_content(e)),
            first_some(e0.subrange(0, i as int), f) is None,
            first_some(e0, f) is Some,
        decreases e0.len() - i,
    {
        proof {
            lemma_first_some_extend(e0, f, i as int);
        }
        if find_group_content(&elms[i]).is_some() {
            proof {
                lemma_first_some_prefix(e0, f, i as int);
            }
            let v = clear_group_content(&mut elms[i]);
            proof {
                let c = |x: Extension, y: Extension| group_content_cleared(x, y, v@);
                assert(c(e0[i as int], elms@[i as int]));
            }
            return v;
        }
        i = i + 1;
    }
    proof {
        lemma_first_some_whole(e0, f);
    }
    String::new()
}

/// Takes the description of the kind out of an entry of a Media RSS map.
fn clear_entry_description(kind: &DescriptionKind, p: &mut (String, Vec<Extension>)) -> (r: String)
    requires
        entry_description(*kind)(*old(p)) is Some,
    ensures
        entry_description(*kind)(*old(p)) == Some(r@),
        entry_cleared(*old(p), *final(p), r@),
{
    match kind {
        DescriptionKind::Content => {
            if is_named(&p.0, "content") {
                clear_content_description(&mut p.1)
            } else {
                proof {
                    assert("content"@ != "group"@) by {
                        reveal_strlit("content");
                        reveal_strlit("group");
                        assert("content"@.len() != "group"@.len());
                    }
                }
                clear_groups(&mut p.1)
            }
        },
        DescriptionKind::Group => clear_content_description(&mut p.1),
        DescriptionKind::Item => clear_first_value(&mut p.1),
    }
}

/// Takes the first description of the kind in the Media RSS maps out.
fn clear_in_mrss(extensions: &mut ExtensionMap, namespaces: &Vec<(String, String)>, kind: &DescriptionKind) -> (r: String)
    requires
        in_mrss(old(extensions)@, namespaces@, entry_description(*kind)) is Some,
    ensures
        in_mrss(old(extensions)@, namespaces@, entry_description(*kind)) == Some(r@),
        description_cleared(namespaces@, old(extensions)@, final(extensions)@, r@),
{
    let ghost x0 = extensions@;
    let ghost g = entry_description(*kind);
    let ghost f = |m: (String, Vec<(String, Vec<Extension>)>)|
        if is_mrss(namespaces@, m.0@) { first_some(m.1@, g) } else { None };
    let mrss = String::from_str("http://search.yahoo.com/mrss/");
    let mut i: usize = 0;
    proof {
        lemma_first_some_whole(x0, f);
    }
    while i < extensions.len()
        invariant
            x0 == old(extensions)@,
            extensions@ == x0,
            i <= x0.len(),
            g == entry_description(*kind),
            mrss@ == ns_mrss(),
            f == (|m: (String, Vec<(String, Vec<Extension>)>)|
                if is_mrss(namespaces@, m.0@) { first_some(m.1@, g) } else { None }),
            first_some(x0.subrange(0, i as int), f) is None,
            first_some(x0, f) is Some,
        decreases x0.len() - i,
    {
        proof {
            lemma_first_some_extend(x0, f, i as int);
        }
        let ns = lookup_exec(namespaces, &extensions[i].0);
        let is_mrss_prefix = match &ns {
            Some(n) => *n == mrss,
            None => false,
        };
        if is_mrss_prefix {
            let ghost m0 = x0[i as int].1@;
            let mut j: usize = 0;
            proof {
                lemma_first_some_whole(m0, g);
            }
            while j < extensions[i].1.len()
                invariant
                    x0 == old(extensions)@,
                    extensions@ == x0,
                    i < x0.len(),
                    m0 == x0[i as int].1@,
                    j <= m0.len(),
                    is_mrss(namespaces@, x0[i as int].0@),
                    g == entry_description(*kind),
                    f == (|m: (String, Vec<(String, Vec<Extension>)>)|
                        if is_mrss(namespaces@, m.0@) { first_some(m.1@, g) } else { None }),
                    first_some(x0.subrange(0, i as int), f) is None,
                    first_some(x0, f) is Some,
                    first_some(m0.subrange(0, j as int), g) is None,
                decreases m0.len() - j,
            {
                proof {
                    lemma_first_some_extend(m0, g, j as int);
                }
                if find_entry_description(kind, &extensions[i].1[j]).is_some() {
                    proof {
                        lemma_first_some_prefix(m0, g, j as int);
                        lemma_first_some_prefix(x0, f, i as int);
                    }
                    let v = clear_entry_description(kind, &mut extensions[i].1[j]);
                    proof {
                        let ce = |p: (String, Vec<Extension>), q: (String, Vec<Extension>)| entry_cleared(p, q, v@);
                        assert(ce(m0[j as int], extensions@[i as int].1@[j as int]));
                        assert(one_changed(m0, extensions@[i as int].1@, ce));
                        let cm = |m0: (String, Vec<(String, Vec<Extension>)>), m1: (String, Vec<(String, Vec<Extension>)>)|
                            m1.0 == m0.0 && is_mrss(namespaces@, m0.0@) && one_changed(m0.1@, m1.1@, ce);
                        assert(cm(x0[i as int], extensions@[i as int]));
                        assert(one_changed(x0, extensions@, cm));
                    }
                    return v;
                }
                j = j + 1;
            }
            proof {
                lemma_first_some_whole(m0, g);
            }
        }
        i = i + 1;
    }
    proof {
        lemma_first_some_whole(x0, f);
    }
    String::new()
}

/// Takes the `media:description` string out of the extensions of an entry or item: the
/// description of a `media:content` element (directly or in a `media:group`) takes the
/// strongest precedence, then that of a `media:group`, then that of the entry itself. Nothing
/// else is changed.
///
/// <https://www.rssboard.org/media-rss#media-description>
pub fn take_media_description(extensions: &mut ExtensionMap, namespaces: &Vec<(String, String)>) -> (r: Option<String>)
    ensures
        opt_view(r) == media_description(old(extensions)@, namespaces@),
        r is None ==> *final(extensions) == *old(extensions),
        r matches Some(v) ==> description_cleared(namespaces@, old(extensions)@, final(extensions)@, v@),
{
    if find_in_mrss(extensions, namespaces, &DescriptionKind::Content).is_some() {
        return Some(clear_in_mrss(extensions, namespaces, &DescriptionKind::Content));
    }
    if find_in_mrss(extensions, namespaces, &DescriptionKind::Group).is_some() {
        return Some(clear_in_mrss(extensions, namespaces, &DescriptionKind::Group));
    }
    if find_in_mrss(extensions, namespaces, &DescriptionKind::Item).is_some() {
        return Some(clear_in_mrss(extensions, namespaces, &DescriptionKind::Item));
    }
    None
}

// ---------------------------------------------------------------------------------------------
// Feeds and entries
/// A feed as the subscriber hands it to its user.
#[derive(Debug)]
pub struct Feed {
    pub title: String,
    pub id: String,
    pub entries: Vec<Entry>,
}

/// An entry of a feed.
#[derive(Debug)]
pub struct Entry {
    pub title: Option<String>,
    pub id: Option<String>,
    pub link: Option<String>,
    pub summary: Option<String>,
    pub content: Option<String>,
    pub updated: Option<i64>,
}

/// A view of an entry.
pub struct EntryView {
    pub title: Option<Seq<char>>,
    pub id: Option<Seq<char>>,
    pub link: Option<Seq<char>>,
    pub summary: Option<Seq<char>>,
    pub content: Option<Seq<char>>,
    pub updated: Option<i64>,
}

/// A view of a feed.
pub struct FeedView {
    pub title: Seq<char>,
    pub id: Seq<char>,
    pub entries: Seq<EntryView>,
}

impl View for Entry {
    type V = EntryView;

    open spec fn view(&self) -> EntryView {
        EntryView {
            title: opt_view(self.title),
            id: opt_view(self.id),
            link: opt_view(self.link),
            summary: opt_view(self.summary),
            content: opt_view(self.content),
            updated: self.updated,
        }
    }
}

impl View for Feed {
    type V = FeedView;

    open spec fn view(&self) -> FeedView {
        FeedView {
            title: self.title@,
            id: self.id@,
            entries: self.entries@.map_values(|e: Entry| e@),
        }
    }
}

/// The link of an Atom entry: the first `alternate` link, or else the first link.
pub open spec fn atom_link(links: Seq<AtomLink>) -> Option<Seq<char>> {
    if links.len() == 0 {
        None
    } else {
        or_else(
            first_some(links, |l: AtomLink| if l.rel@ == "alternate"@ { Some(l.href@) } else { None }),
            Some(links[0].href@),
        )
    }
}

/// The entry that an Atom entry gives, with the feed's namespace declarations.
pub open spec fn atom_entry_view(e: AtomEntry, namespaces: Seq<(String, String)>) -> EntryView {
    EntryView {
        title: Some(e.title@),
        id: Some(e.id@),
        link: atom_link(e.links@),
        summary: or_else(opt_view(e.summary), media_description(e.extensions@, namespaces)),
        content: opt_view(e.content),
        updated: Some(e.updated),
    }
}

/// The link of an RSS item: its `link`, or else its `guid` where that is a permalink.
pub open spec fn rss_link(item: RssItem) -> Option<Seq<char>> {
    or_else(
        opt_view(item.link),
        match item.guid {
            Some(g) => if g.permalink {
                Some(g.value@)
            } else {
                None
            },
            None => None,
        },
    )
}

/// The entry that an RSS item gives, with the channel's namespace declarations.
pub open spec fn rss_entry_view(item: RssItem, namespaces: Seq<(String, String)>) -> EntryView {
    EntryView {
        title: opt_view(item.title),
        id: match item.guid {
            Some(g) => Some(g.value@),
            None => None,
        },
        link: rss_link(item),
        summary: or_else(opt_view(item.description), media_description(item.extensions@, namespaces)),
        content: opt_view(item.content),
        updated: None,
    }
}

/// The feed that an Atom feed gives.
pub open spec fn atom_feed_view(f: AtomFeed) -> FeedView {
    FeedView {
        title: f.title@,
        id: f.id@,
        entries: f.entries@.map_values(|e: AtomEntry| atom_entry_view(e, f.namespaces@)),
    }
}

/// The feed that an RSS channel gives.
pub open spec fn rss_feed_view(c: RssChannel) -> FeedView {
    FeedView {
        title: c.title@,
        id: c.link@,
        entries: c.items@.map_values(|i: RssItem| rss_entry_view(i, c.namespaces@)),
    }
}

/// The link of an Atom entry.
fn take_atom_link(links: &Vec<AtomLink>) -> (r: Option<String>)
    ensures
        opt_view(r) == atom_link(links@),
{
    if links.len() == 0 {
        return None;
    }
    if is_named(&links[0].rel, "alternate") {
        proof {
            let f = |l: AtomLink| if l.rel@ == "alternate"@ { Some(l.href@) } else { None };
            lemma_first_some_whole(links@, f);
            lemma_first_some_prefix(links@, f, 0);
        }
        return Some(links[0].href.clone());
    }
    let ghost f = |l: AtomLink| if l.rel@ == "alternate"@ { Some(l.href@) } else { None };
    let mut i: usize = 1;
    proof {
        lemma_first_some_whole(links@, f);
        lemma_first_some_extend(links@, f, 0);
    }
    while i < links.len()
        invariant
            1 <= i <= links@.len(),
            f == (|l: AtomLink| if l.rel@ == "alternate"@ { Some(l.href@) } else { None }),
            first_some(links@.subrange(0, i as int), f) is None,
        decreases links@.len() - i,
    {
        proof {
            lemma_first_some_extend(links@, f, i as int);
        }
        if is_named(&links[i].rel, "alternate") {
            proof {
                lemma_first_some_prefix(links@, f, i as int);
            }
            return Some(links[i].href.clone());
        }
        i = i + 1;
    }
    proof {
        lemma_first_some_whole(links@, f);
    }
    Some(links[0].href.clone())
}

/// The extensions of an entry or item after its entry is made: where it has no summary of its
/// own and a `media:description`, that value is taken out (see `description_cleared`); else
/// they are as they were.
pub open spec fn summary_taken(
    has_summary: bool,
    namespaces: Seq<(String, String)>,
    before: Seq<(String, Vec<(String, Vec<Extension>)>)>,
    after: Seq<(String, Vec<(String, Vec<Extension>)>)>,
) -> bool {
    match media_description(before, namespaces) {
        Some(v) if !has_summary => description_cleared(namespaces, before, after, v),
        _ => after == before,
    }
}

/// An Atom entry after the subscriber's entry is made of it.
pub open spec fn atom_entry_taken(namespaces: Seq<(String, String)>, before: AtomEntry, after: AtomEntry) -> bool {
    &&& after == AtomEntry { extensions: after.extensions, ..before }
    &&& summary_taken(before.summary is Some, namespaces, before.extensions@, after.extensions@)
}

/// An RSS item after the subscriber's entry is made of it.
pub open spec fn rss_item_taken(namespaces: Seq<(String, String)>, before: RssItem, after: RssItem) -> bool {
    &&& after == RssItem { extensions: after.extensions, ..before }
    &&& summary_taken(before.description is Some, namespaces, before.extensions@, after.extensions@)
}

impl Entry {
    /// The entry that an Atom entry gives, with the feed's namespace declarations. The
    /// `media:description` that stands in for a missing summary is moved out of the entry.
    pub fn from_atom(entry: &mut AtomEntry, namespaces: &Vec<(String, String)>) -> (r: Entry)
        ensures
            r@ == atom_entry_view(*old(entry), namespaces@),
            atom_entry_taken(namespaces@, *old(entry), *final(entry)),
    {
        let summary = match &entry.summary {
            Some(s) => Some(s.clone()),
            None => take_media_description(&mut entry.extensions, namespaces),
        };
        Entry {
            title: Some(entry.title.clone()),
            id: Some(entry.id.clone()),
            link: take_atom_link(&entry.links),
            summary,
            content: clone_opt(&entry.content),
            updated: Some(entry.updated),
        }
    }

    /// The entry that an RSS item gives, with the channel's namespace declarations. The
    /// `media:description` that stands in for a missing description is moved out of the item.
    pub fn from_rss(item: &mut RssItem, namespaces: &Vec<(String, String)>) -> (r: Entry)
        ensures
            r@ == rss_entry_view(*old(item), namespaces@),
            rss_item_taken(namespaces@, *old(item), *final(item)),
    {
        let link = match &item.link {
            Some(l) => Some(l.clone()),
            None => match &item.guid {
                Some(g) => if g.permalink {
                    Some(g.value.clone())
                } else {
                    None
                },
                None => None,
            },
        };
        let summary = match &item.description {
            Some(s) => Some(s.clone()),
            None => take_media_description(&mut item.extensions, namespaces),
        };
        Entry {
            title: clone_opt(&item.title),
            id: match &item.guid {
                Some(g) => Some(g.value.clone()),
                None => None,
            },
            link,
            summary,
            content: clone_opt(&item.content),
            updated: None,
        }
    }
}

impl Feed {
    /// The feed that an Atom feed gives; each entry is taken as `Entry::from_atom` says.
    pub fn from_atom(feed: &mut AtomFeed) -> (r: Feed)
        ensures
            r@ == atom_feed_view(*old(feed)),
            *final(feed) == (AtomFeed { entries: final(feed).entries, ..*old(feed) }),
            final(feed).entries@.len() == old(feed).entries@.len(),
            forall|i: int| 0 <= i < old(feed).entries@.len() ==> atom_entry_taken(
                old(feed).namespaces@,
                old(feed).entries@[i],
                #[trigger] final(feed).entries@[i],
            ),
    {
        let ghost f0 = *feed;
        let mut entries: Vec<Entry> = Vec::new();
        let mut i: usize = 0;
        while i < feed.entries.len()
            invariant
                f0 == *old(feed),
                *feed == (AtomFeed { entries: feed.entries, ..f0 }),
                feed.entries@.len() == f0.entries@.len(),
                i <= f0.entries@.len(),
                entries@.len() == i,
                forall|j: int| 0 <= j < i ==> (#[trigger] entries@[j])@ == atom_entry_view(f0.entries@[j], f0.namespaces@),
                forall|j: int| 0 <= j < i ==> atom_entry_taken(f0.namespaces@, f0.entries@[j], #[trigger] feed.entries@[j]),
                forall|j: int| i <= j < f0.entries@.len() ==> feed.entries@[j] == f0.entries@[j],
            decreases f0.entries@.len() - i,
        {
            let e = Entry::from_atom(&mut feed.entries[i], &feed.namespaces);
            entries.push(e);
            i = i + 1;
        }
        let r = Feed { title: feed.title.clone(), id: feed.id.clone(), entries };
        assert(r@.entries =~= atom_feed_view(f0).entries);
        r
    }

    /// The feed that an RSS channel gives; each item is taken as `Entry::from_rss` says.
    pub fn from_rss(channel: &mut RssChannel) -> (r: Feed)
        ensures
            r@ == rss_feed_view(*old(channel)),
            *final(channel) == (RssChannel { items: final(channel).items, ..*old(channel) }),
            final(channel).items@.len() == old(channel).items@.len(),
            forall|i: int| 0 <= i < old(channel).items@.len() ==> rss_item_taken(
                old(channel).namespaces@,
                old(channel).items@[i],
                #[trigger] final(channel).items@[i],
            ),
    {
        let ghost c0 = *channel;
        let mut entries: Vec<Entry> = Vec::new();
        let mut i: usize = 0;
        while i < channel.items.len()
            invariant
                c0 == *old(channel),
                *channel == (RssChannel { items: channel.items, ..c0 }),
                channel.items@.len() == c0.items@.len(),
                i <= c0.items@.len(),
                entries@.len() == i,
                forall|j: int| 0 <= j < i ==> (#[trigger] entries@[j])@ == rss_entry_view(c0.items@[j], c0.namespaces@),
                forall|j: int| 0 <= j < i ==> rss_item_taken(c0.namespaces@, c0.items@[j], #[trigger] channel.items@[j]),
                forall|j: int| i <= j < c0.items@.len() ==> channel.items@[j] == c0.items@[j],
            decreases c0.items@.len() - i,
        {
            let e = Entry::from_rss(&mut channel.items[i], &channel.namespaces);
            entries.push(e);
            i = i + 1;
        }
        let r = Feed { title: channel.title.clone(), id: channel.link.clone(), entries };
        assert(r@.entries =~= rss_feed_view(c0).entries);
        r
    }
}

// ---------------------------------------------------------------------------------------------
// Parsing documents
/// `atom_syndication::Feed`, as the Atom parser returns it, carried through unread.
#[verifier::external_type_specification]
#[verifier::external_body]
pub struct ExAtomDocument(AtomSourceFeed);

/// `atom_syndication::Entry`, carried through unread.
#[verifier::external_type_specification]
#[verifier::external_body]
pub struct ExAtomEntry(AtomSourceEntry);

/// `atom_syndication::extension::Extension`, carried through unread.
#[verifier::external_type_specification]
#[verifier::external_body]
pub struct ExAtomExtension(AtomSourceExtension);

/// `rss::Channel`, as the RSS parser returns it, carried through unread.
#[verifier::external_type_specification]
#[verifier::external_body]
pub struct ExRssChannel(rss::Channel);

/// `rss::Item`, carried through unread.
#[verifier::external_type_specification]
#[verifier::external_body]
pub struct ExRssItem(rss::Item);

/// `rss::extension::Extension`, carried through unread.
#[verifier::external_type_specification]
#[verifier::external_body]
pub struct ExRssExtension(RssSourceExtension);

/// The Atom feed that `atom_syndication::Feed::read_from` reads from the bytes (as the fields
/// the subscriber reads), or `None` where it fails.
pub uninterp spec fn atom_document(content: Seq<u8>) -> Option<AtomFeed>;

/// The RSS channel that `rss::Channel::read_from` reads from the bytes (as the fields the
/// subscriber reads), or `None` where it fails.
pub uninterp spec fn rss_document(content: Seq<u8>) -> Option<RssChannel>;

/// Converts an `atom_syndication` extension element, one field for one.
#[verifier::external_body]
fn atom_extension_model(e: AtomSourceExtension) -> Extension {
    Extension {
        name: e.name,
        value: e.value,
        attrs: e.attrs.into_iter().collect(),
        children: e.children.into_iter().map(|(n, v)| (n, v.into_iter().map(atom_extension_model).collect())).collect(),
    }
}

/// Converts an `atom_syndication` extension map, one entry for one, in the map's order.
#[verifier::external_body]
fn atom_extension_map_model(m: BTreeMap<String, BTreeMap<String, Vec<AtomSourceExtension>>>) -> ExtensionMap {
    m.into_iter()
        .map(|(p, m)| (p, m.into_iter().map(|(n, v)| (n, v.into_iter().map(atom_extension_model).collect())).collect()))
        .collect()
}

/// Converts an `atom_syndication::Entry` into the fields the subscriber reads, one for one.
#[verifier::external_body]
fn atom_entry_model(e: AtomSourceEntry) -> AtomEntry {
    AtomEntry {
        title: e.title.value,
        id: e.id,
        updated: e.updated.timestamp(),
        links: e.links.into_iter().map(|l| AtomLink { rel: l.rel, href: l.href }).collect(),
        summary: e.summary.map(|t| t.value),
        content: e.content.and_then(|c| c.value),
        extensions: atom_extension_map_model(e.extensions),
    }
}

/// Converts an `atom_syndication::Feed` into the fields the subscriber reads, one for one.
#[verifier::external_body]
fn atom_feed_model(f: AtomSourceFeed) -> AtomFeed {
    AtomFeed {
        title: f.title.value,
        id: f.id,
        links: f.links.into_iter().map(|l| AtomLink { rel: l.rel, href: l.href }).collect(),
        namespaces: f.namespaces.into_iter().collect(),
        entries: f.entries.into_iter().map(atom_entry_model).collect(),
    }
}

/// Converts an `rss` extension element, one field for one.
#[verifier::external_body]
fn rss_extension_model(e: RssSourceExtension) -> Extension {
    Extension {
        name: e.name,
        value: e.value,
        attrs: e.attrs.into_iter().collect(),
        children: e.children.into_iter().map(|(n, v)| (n, v.into_iter().map(rss_extension_model).collect())).collect(),
    }
}

/// Converts an `rss` extension map, one entry for one, in the map's order.
#[verifier::external_body]
fn rss_extension_map_model(m: BTreeMap<String, BTreeMap<String, Vec<RssSourceExtension>>>) -> ExtensionMap {
    m.into_iter()
        .map(|(p, m)| (p, m.into_iter().map(|(n, v)| (n, v.into_iter().map(rss_extension_model).collect())).collect()))
        .collect()
}

/// Converts an `rss::Item` into the fields the subscriber reads, one for one.
#[verifier::external_body]
fn rss_item_model(i: rss::Item) -> RssItem {
    RssItem {
        title: i.title,
        link: i.link,
        description: i.description,
        guid: i.guid.map(|g| RssGuid { value: g.value, permalink: g.permalink }),
        content: i.content,
        extensions: rss_extension_map_model(i.extensions),
    }
}

/// Converts an `rss::Channel` into the fields the subscriber reads, one for one.
#[verifier::external_body]
fn rss_channel_model(c: rss::Channel) -> RssChannel {
    RssChannel {
        title: c.title,
        link: c.link,
        namespaces: c.namespaces.into_iter().collect(),
        extensions: rss_extension_map_model(c.extensions),
        items: c.items.into_iter().map(rss_item_model).collect(),
    }
}

/// Reads an Atom document with `atom_syndication::Feed::read_from`.
///
/// Claimed of it: the result is the named document of the bytes.
#[verifier::external_body]
fn read_atom(content: &[u8]) -> (r: Option<AtomFeed>)
    ensures
        r == atom_document(content@),
{
    AtomSourceFeed::read_from(content).ok().map(atom_feed_model)
}

/// Reads an RSS document with `rss::Channel::read_from`.
///
/// Claimed of it: the result is the named document of the bytes.
#[verifier::external_body]
fn read_rss(content: &[u8]) -> (r: Option<RssChannel>)
    ensures
        r == rss_document(content@),
{
    rss::Channel::read_from(content).ok().map(rss_channel_model)
}

/// A parsed document of either syndication format.
pub enum RawFeed {
    Atom(AtomFeed),
    Rss(RssChannel),
}

/// MIME type for syndication formats.
#[derive(Clone, Copy, Debug, PartialEq, Eq, Structural)]
pub enum MediaType {
    Atom,
    Rss,
    Xml,
}

/// The document that the bytes of the given media type parse into: Atom or RSS as the type
/// says, and for generic XML Atom where it parses as Atom, else RSS.
pub open spec fn raw_document(kind: MediaType, content: Seq<u8>) -> Option<RawFeed> {
    match kind {
        MediaType::Atom => match atom_document(content) {
            Some(f) => Some(RawFeed::Atom(f)),
            None => None,
        },
        MediaType::Rss => match rss_document(content) {
            Some(c) => Some(RawFeed::Rss(c)),
            None => None,
        },
        MediaType::Xml => match atom_document(content) {
            Some(f) => Some(RawFeed::Atom(f)),
            None => match rss_document(content) {
                Some(c) => Some(RawFeed::Rss(c)),
                None => None,
            },
        },
    }
}

/// The feed that a document gives.
pub open spec fn raw_feed_view(raw: RawFeed) -> FeedView {
    match raw {
        RawFeed::Atom(f) => atom_feed_view(f),
        RawFeed::Rss(c) => rss_feed_view(c),
    }
}

/// The document after the feed is made of it: the entries or items are taken as
/// `Feed::from_atom` and `Feed::from_rss` say; the rest is as it was.
pub open spec fn feed_taken(before: RawFeed, after: RawFeed) -> bool {
    match (before, after) {
        (RawFeed::Atom(f0), RawFeed::Atom(f1)) => {
            &&& f1 == AtomFeed { entries: f1.entries, ..f0 }
            &&& f1.entries@.len() == f0.entries@.len()
            &&& forall|i: int| 0 <= i < f0.entries@.len() ==> atom_entry_taken(f0.namespaces@, f0.entries@[i], #[trigger] f1.entries@[i])
        },
        (RawFeed::Rss(c0), RawFeed::Rss(c1)) => {
            &&& c1 == RssChannel { items: c1.items, ..c0 }
            &&& c1.items@.len() == c0.items@.len()
            &&& forall|i: int| 0 <= i < c0.items@.len() ==> rss_item_taken(c0.namespaces@, c0.items@[i], #[trigger] c1.items@[i])
        },
        _ => false,
    }
}

impl RawFeed {
    /// Parses a document of the given media type.
    pub fn parse(kind: MediaType, content: &[u8]) -> (r: Option<RawFeed>)
        ensures
            r == raw_document(kind, content@),
    {
        match kind {
            MediaType::Atom => match read_atom(content) {
                Some(f) => Some(RawFeed::Atom(f)),
                None => None,
            },
            MediaType::Rss => match read_rss(content) {
                Some(c) => Some(RawFeed::Rss(c)),
                None => None,
            },
            MediaType::Xml => match read_atom(content) {
                Some(f) => Some(RawFeed::Atom(f)),
                None => match read_rss(content) {
                    Some(c) => Some(RawFeed::Rss(c)),
                    None => None,
                },
            },
        }
    }
}

impl Feed {
    /// The feed that a document gives.
    pub fn from_raw(raw: &mut RawFeed) -> (r: Feed)
        ensures
            r@ == raw_feed_view(*old(raw)),
            feed_taken(*old(raw), *final(raw)),
    {
        match raw {
            RawFeed::Atom(f) => Feed::from_atom(f),
            RawFeed::Rss(c) => Feed::from_rss(c),
        }
    }

    /// Parses a feed of the given media type.
    pub fn parse(kind: MediaType, content: &[u8]) -> (r: Option<Feed>)
        ensures
            match raw_document(kind, content@) {
                Some(raw) => r matches Some(f) && f@ == raw_feed_view(raw),
                None => r is None,
            },
    {
        match RawFeed::parse(kind, content) {
            Some(raw) => {
                let mut raw = raw;
                Some(Feed::from_raw(&mut raw))
            },
            None => None,
        }
    }
}

// ---------------------------------------------------------------------------------------------
// Media types
/// The type, subtype and suffix that `mime::Mime` parses a string into, as `Name::as_str` gives
/// them, or `None` where the string does not parse.
pub uninterp spec fn mime_components_of(s: Seq<char>) -> Option<(Seq<char>, Seq<char>, Option<Seq<char>>)>;

/// Parses a MIME type with `mime::Mime::from_str` and returns `type_()`, `subtype()` and
/// `suffix()` as strings.
///
/// Claimed of it: the result is the named components of the string.
#[verifier::external_body]
fn mime_components(s: &str) -> (r: Option<(String, String, Option<String>)>)
    ensures
        r matches Some(c) ==> mime_components_of(s@) == Some((c.0@, c.1@, opt_view(c.2))),
        r is None ==> mime_components_of(s@) is None,
{
    let m: mime::Mime = s.parse().ok()?;
    Some((m.type_().as_str().to_owned(), m.subtype().as_str().to_owned(), m.suffix().map(|x| x.as_str().to_owned())))
}

/// A byte with ASCII upper-case letters made lower-case.
pub open spec fn ascii_lower(b: u8) -> u8 {
    if 0x41 <= b <= 0x5a {
        (b + 0x20) as u8
    } else {
        b
    }
}

/// Whether two byte strings are equal but for ASCII case.
pub open spec fn eq_ignore_ascii_case(a: Seq<u8>, b: Seq<u8>) -> bool {
    a.len() == b.len() && forall|i: int| 0 <= i < a.len() ==> ascii_lower(#[trigger] a[i]) == ascii_lower(b[i])
}

fn eq_ignore_ascii_case_exec(a: &str, b: &str) -> (r: bool)
    ensures
        r == eq_ignore_ascii_case(a.spec_bytes(), b.spec_bytes()),
{
    let x = a.as_bytes();
    let y = b.as_bytes();
    if x.len() != y.len() {
        return false;
    }
    let mut i: usize = 0;
    while i < x.len()
        invariant
            x@ == a.spec_bytes(),
            y@ == b.spec_bytes(),
            x@.len() == y@.len(),
            i <= x@.len(),
            forall|j: int| 0 <= j < i ==> ascii_lower(#[trigger] x@[j]) == ascii_lower(y@[j]),
        decreases x@.len() - i,
    {
        let p = if 0x41 <= x[i] && x[i] <= 0x5a { x[i] + 0x20 } else { x[i] };
        let q = if 0x41 <= y[i] && y[i] <= 0x5a { y[i] + 0x20 } else { y[i] };
        if p != q {
            assert(ascii_lower(x@[i as int]) != ascii_lower(y@[i as int]));
            return false;
        }
        i = i + 1;
    }
    true
}

/// The media type that MIME components stand for: `application/atom+xml` is Atom,
/// `application/rss+xml` and `application/rdf+xml` are RSS, `application/xml` and `text/xml`
/// are generic XML. Types and suffixes compare exactly (`mime` lower-cases them), subtypes
/// ignoring ASCII case.
pub open spec fn media_type_of(c: (Seq<char>, Seq<char>, Option<Seq<char>>)) -> Option<MediaType> {
    let (t, sub, suffix) = c;
    let sub = vstd::utf8::encode_utf8(sub);
    let xml_suffix = suffix == Some("xml"@);
    if t == "application"@ && eq_ignore_ascii_case(sub, "atom".spec_bytes()) && xml_suffix {
        Some(MediaType::Atom)
    } else if t == "application"@ && (eq_ignore_ascii_case(sub, "rss".spec_bytes())
        || eq_ignore_ascii_case(sub, "rdf".spec_bytes())) && xml_suffix {
        Some(MediaType::Rss)
    } else if (t == "application"@ || t == "text"@) && eq_ignore_ascii_case(sub, "xml".spec_bytes()) {
        Some(MediaType::Xml)
    } else {
        None
    }
}

/// Whether an optional string is the given text.
fn opt_is(o: &Option<String>, text: &str) -> (r: bool)
    ensures
        r == (opt_view(*o) == Some(text@)),
{
    match o {
        Some(s) => is_named(s, text),
        None => false,
    }
}

impl MediaType {
    /// The media type that a MIME type string names, if it names a syndication format.
    pub fn from_mime(s: &str) -> (r: Result<MediaType, ()>)
        ensures
            match mime_components_of(s@) {
                None => r is Err,
                Some(c) => match media_type_of(c) {
                    Some(m) => r == Ok::<MediaType, ()>(m),
                    None => r is Err,
                },
            },
    {
        match mime_components(s) {
            Some((t, sub, suffix)) => MediaType::from_components(&t, &sub, &suffix),
            None => Err(()),
        }
    }

    /// The media type that the components of a MIME type (type, subtype, suffix) stand for, if
    /// a syndication format.
    pub fn from_components(t: &String, sub: &String, suffix: &Option<String>) -> (r: Result<MediaType, ()>)
        ensures
            match media_type_of((t@, sub@, opt_view(*suffix))) {
                Some(m) => r == Ok::<MediaType, ()>(m),
                None => r is Err,
            },
    {
        let application = is_named(t, "application");
        let xml_suffix = opt_is(suffix, "xml");
        if application && eq_ignore_ascii_case_exec(sub.as_str(), "atom") && xml_suffix {
            Ok(MediaType::Atom)
        } else if application && (eq_ignore_ascii_case_exec(sub.as_str(), "rss")
            || eq_ignore_ascii_case_exec(sub.as_str(), "rdf")) && xml_suffix {
            Ok(MediaType::Rss)
        } else if (application || is_named(t, "text")) && eq_ignore_ascii_case_exec(sub.as_str(), "xml") {
            Ok(MediaType::Xml)
        } else {
            Err(())
        }
    }
}

impl MediaType {
    /// The media type of a pushed body by its `Content-Type` header: the type that the header
    /// names, generic XML where there is no header, and an error where the header names none
    /// of the syndication formats.
    pub fn from_content_type(content_type: Option<&str>) -> (r: Result<MediaType, ()>)
        ensures
            content_type is None ==> r == Ok::<MediaType, ()>(MediaType::Xml),
            content_type matches Some(s) ==> match mime_components_of(s@) {
                None => r is Err,
                Some(c) => match media_type_of(c) {
                    Some(m) => r == Ok::<MediaType, ()>(m),
                    None => r is Err,
                },
            },
    {
        match content_type {
            None => Ok(MediaType::Xml),
            Some(s) => MediaType::from_mime(s),
        }
    }
}

impl std::str::FromStr for MediaType {
    type Err = ();

    fn from_str(s: &str) -> (r: Result<MediaType, ()>)
        ensures
            match mime_components_of(s@) {
                None => r is Err,
                Some(c) => match media_type_of(c) {
                    Some(m) => r == Ok::<MediaType, ()>(m),
                    None => r is Err,
                },
            },
    {
        MediaType::from_mime(s)
    }
}

// ---------------------------------------------------------------------------------------------
// Hub discovery
/// What a feed says of its subscription: its own URI (the topic) and its hubs.
#[derive(Debug)]
pub struct Meta {
    pub topic: Option<String>,
    pub hubs: Vec<String>,
}

/// The `href`s of the links with the given `rel`, in order.
pub open spec fn hrefs_with_rel(links: Seq<AtomLink>, rel: Seq<char>) -> Seq<Seq<char>>
    decreases links.len(),
{
    if links.len() == 0 {
        Seq::empty()
    } else {
        let init = hrefs_with_rel(links.drop_last(), rel);
        if links.last().rel@ == rel {
            init.push(links.last().href@)
        } else {
            init
        }
    }
}

/// The topic of an Atom feed: the `href` of its first `self` link.
pub open spec fn atom_topic(links: Seq<AtomLink>) -> Option<Seq<char>> {
    first_some(links, |l: AtomLink| if l.rel@ == "self"@ { Some(l.href@) } else { None })
}

/// The `link` elements of an extension map entry list, if it has any.
pub open spec fn link_elements(m: Seq<(String, Vec<Extension>)>) -> Option<Seq<Extension>> {
    match first_some(m, |p: (String, Vec<Extension>)| if p.0@ == "link"@ { Some(Seq::<char>::empty()) } else { None }) {
        None => None,
        Some(_) => Some(m[first_index_named(m, "link"@)].1@),
    }
}

/// The index of the first entry with the given name.
pub open spec fn first_index_named(m: Seq<(String, Vec<Extension>)>, name: Seq<char>) -> int {
    choose|i: int| 0 <= i < m.len() && m[i].0@ == name && forall|j: int| 0 <= j < i ==> m[j].0@ != name
}

/// Whether a `link` element under the prefix is an Atom link: its own `xmlns:` declaration of
/// the prefix says so, or, without one, the document's declaration does.
pub open spec fn is_atom_link(e: Extension, prefix: Seq<char>, namespaces: Seq<(String, String)>) -> bool {
    match lookup(e.attrs@, "xmlns:"@ + prefix) {
        Some(ns) => ns == ns_atom(),
        None => lookup(namespaces, prefix) == Some(ns_atom()),
    }
}

/// The `href` of an Atom link element with the given `rel`.
pub open spec fn link_href(e: Extension, prefix: Seq<char>, namespaces: Seq<(String, String)>, rel: Seq<char>) -> Option<Seq<char>> {
    if is_atom_link(e, prefix, namespaces) && lookup(e.attrs@, "rel"@) == Some(rel) {
        lookup(e.attrs@, "href"@)
    } else {
        None
    }
}

/// The `href`s of the Atom link elements with the given `rel` among elements, in order.
pub open spec fn element_hrefs(elms: Seq<Extension>, prefix: Seq<char>, namespaces: Seq<(String, String)>, rel: Seq<char>) -> Seq<Seq<char>>
    decreases elms.len(),
{
    if elms.len() == 0 {
        Seq::empty()
    } else {
        let init = element_hrefs(elms.drop_last(), prefix, namespaces, rel);
        match link_href(elms.last(), prefix, namespaces, rel) {
            Some(h) => init.push(h),
            None => init,
        }
    }
}

/// The `href`s of the Atom `link` elements with the given `rel` in an RSS extension map.
pub open spec fn rss_hrefs(ext: Seq<(String, Vec<(String, Vec<Extension>)>)>, namespaces: Seq<(String, String)>, rel: Seq<char>) -> Seq<Seq<char>>
    decreases ext.len(),
{
    if ext.len() == 0 {
        Seq::empty()
    } else {
        let init = rss_hrefs(ext.drop_last(), namespaces, rel);
        match link_elements(ext.last().1@) {
            Some(elms) => init + element_hrefs(elms, ext.last().0@, namespaces, rel),
            None => init,
        }
    }
}

/// The meta data of a document: for Atom, from the feed's `self` and `hub` links; for RSS,
/// from the Atom `link` elements among the channel's extensions.
pub open spec fn meta_of(raw: RawFeed) -> (Option<Seq<char>>, Seq<Seq<char>>) {
    match raw {
        RawFeed::Atom(f) => (atom_topic(f.links@), hrefs_with_rel(f.links@, "hub"@)),
        RawFeed::Rss(c) => {
            let selfs = rss_hrefs(c.extensions@, c.namespaces@, "self"@);
            (if selfs.len() > 0 { Some(selfs[0]) } else { None }, rss_hrefs(c.extensions@, c.namespaces@, "hub"@))
        },
    }
}

/// The `href` of an Atom link element with the given `rel`.
fn element_href(e: &Extension, prefix: &String, namespaces: &Vec<(String, String)>, rel: &str) -> (r: Option<String>)
    ensures
        opt_view(r) == link_href(*e, prefix@, namespaces@, rel@),
{
    let key = String::from_str("xmlns:").concat(prefix.as_str());
    let atom = String::from_str("http://www.w3.org/2005/Atom");
    let is_atom = match lookup_exec(&e.attrs, &key) {
        Some(ns) => ns == atom,
        None => match lookup_exec(namespaces, prefix) {
            Some(ns) => ns == atom,
            None => false,
        },
    };
    if !is_atom {
        return None;
    }
    match lookup_exec(&e.attrs, &String::from_str("rel")) {
        Some(r) => {
            if r == String::from_str(rel) {
                lookup_exec(&e.attrs, &String::from_str("href"))
            } else {
                None
            }
        },
        None => None,
    }
}

/// Whether the link at `i` is the first `self` link.
pub open spec fn is_first_self(links: Seq<AtomLink>, i: int) -> bool {
    links[i].rel@ == "self"@ && forall|j: int| 0 <= j < i ==> links[j].rel@ != "self"@
}

/// The links of an Atom feed after its meta data is taken out: the `href` of the first `self`
/// link and that of every `hub` link are emptied; the rest is as it was.
pub open spec fn atom_links_taken(before: Seq<AtomLink>, after: Seq<AtomLink>) -> bool {
    &&& after.len() == before.len()
    &&& forall|i: int| 0 <= i < before.len() ==> {
        &&& (#[trigger] after[i]).rel == before[i].rel
        &&& if before[i].rel@ == "hub"@ || is_first_self(before, i) {
            after[i].href@ == Seq::<char>::empty()
        } else {
            after[i].href == before[i].href
        }
    }
}

/// The document after its meta data is taken out: for Atom, the feed's links as
/// `atom_links_taken` says; for RSS, the channel's extensions as `rss_links_taken` says; the
/// rest is as it was.
pub open spec fn meta_taken(before: RawFeed, after: RawFeed) -> bool {
    match (before, after) {
        (RawFeed::Atom(f0), RawFeed::Atom(f1)) => f1 == AtomFeed { links: f1.links, ..f0 } && atom_links_taken(f0.links@, f1.links@),
        (RawFeed::Rss(c0), RawFeed::Rss(c1)) => c1 == RssChannel { extensions: c1.extensions, ..c0 }
            && rss_links_taken(c0.namespaces@, c0.extensions@, c1.extensions@),
        _ => false,
    }
}

/// Takes the topic and the hubs out of the links of an Atom feed.
fn take_meta_atom(links: &mut Vec<AtomLink>) -> (r: Meta)
    ensures
        opt_view(r.topic) == atom_topic(old(links)@),
        r.hubs@.map_values(|h: String| h@) == hrefs_with_rel(old(links)@, "hub"@),
        atom_links_taken(old(links)@, final(links)@),
{
    let ghost l0 = links@;
    let mut topic: Option<String> = None;
    let mut hubs: Vec<String> = Vec::new();
    let ghost f = |l: AtomLink| if l.rel@ == "self"@ { Some(l.href@) } else { None };
    let mut i: usize = 0;
    proof {
        lemma_first_some_whole(l0, f);
        assert(l0.subrange(0, 0) =~= Seq::<AtomLink>::empty());
        reveal_strlit("self");
        reveal_strlit("hub");
        assert("self"@.len() != "hub"@.len());
    }
    while i < links.len()
        invariant
            l0 == old(links)@,
            i <= l0.len(),
            links@.len() == l0.len(),
            forall|j: int| i <= j < l0.len() ==> links@[j] == l0[j],
            forall|j: int| 0 <= j < i ==> {
                &&& (#[trigger] links@[j]).rel == l0[j].rel
                &&& if l0[j].rel@ == "hub"@ || is_first_self(l0, j) {
                    links@[j].href@ == Seq::<char>::empty()
                } else {
                    links@[j].href == l0[j].href
                }
            },
            "self"@ != "hub"@,
            f == (|l: AtomLink| if l.rel@ == "self"@ { Some(l.href@) } else { None }),
            opt_view(topic) == first_some(l0.subrange(0, i as int), f),
            topic is None <==> forall|j: int| 0 <= j < i ==> l0[j].rel@ != "self"@,
            hubs@.map_values(|h: String| h@) == hrefs_with_rel(l0.subrange(0, i as int), "hub"@),
        decreases l0.len() - i,
    {
        proof {
            lemma_first_some_extend(l0, f, i as int);
            assert(l0.subrange(0, i + 1).drop_last() =~= l0.subrange(0, i as int));
        }
        let ghost prev = hubs@;
        let ghost was_none = topic is None;
        if is_named(&links[i].rel, "self") {
            if topic.is_none() {
                let href = links[i].href.clone();
                links[i].href = String::new();
                topic = Some(href);
            }
        } else if is_named(&links[i].rel, "hub") {
            let href = links[i].href.clone();
            links[i].href = String::new();
            hubs.push(href);
            assert(hubs@.map_values(|h: String| h@) =~= prev.map_values(|h: String| h@).push(l0[i as int].href@));
        }
        proof {
            assert(l0.subrange(0, i + 1).last() == l0[i as int]);
            let sub = l0.subrange(0, i + 1);
            assert(hrefs_with_rel(sub, "hub"@) == if sub.last().rel@ == "hub"@ {
                hrefs_with_rel(sub.drop_last(), "hub"@).push(sub.last().href@)
            } else {
                hrefs_with_rel(sub.drop_last(), "hub"@)
            });
            assert(hubs@.map_values(|h: String| h@) =~= hrefs_with_rel(l0.subrange(0, i + 1), "hub"@));
            if l0[i as int].rel@ == "self"@ {
                assert(is_first_self(l0, i as int) == was_none);
            } else {
                assert(!is_first_self(l0, i as int));
            }
        }
        i = i + 1;
    }
    proof {
        lemma_first_some_whole(l0, f);
        assert(l0.subrange(0, l0.len() as int) =~= l0);
    }
    Meta { topic, hubs }
}

impl RawFeed {
    /// Takes the topic and the hubs out of the document: the data is moved out, and the
    /// document keeps the rest.
    pub fn take_meta(&mut self) -> (r: Meta)
        ensures
            opt_view(r.topic) == meta_of(*old(self)).0,
            r.hubs@.map_values(|h: String| h@) == meta_of(*old(self)).1,
            meta_taken(*old(self), *final(self)),
    {
        match self {
            RawFeed::Atom(feed) => take_meta_atom(&mut feed.links),
            RawFeed::Rss(channel) => take_meta_rss(&mut channel.extensions, &channel.namespaces),
        }
    }
}

/// Taking the meta data out of a document leaves the feed that it gives as it was.
pub proof fn lemma_take_meta_keeps_feed(before: RawFeed, after: RawFeed)
    requires
        meta_taken(before, after),
    ensures
        raw_feed_view(after) == raw_feed_view(before),
{
}

/// The index of the first pair with the given key.
pub open spec fn first_key_index(pairs: Seq<(String, String)>, key: Seq<char>) -> int {
    choose|i: int| 0 <= i < pairs.len() && pairs[i].0@ == key && forall|j: int| 0 <= j < i ==> pairs[j].0@ != key
}

/// Whether the meta data is taken out of the element at `j` of `elms`: it is an Atom `hub` link
/// with an `href`, or the first Atom `self` link with an `href` of the channel (`no_self_yet`:
/// none comes before `elms`).
pub open spec fn href_taken(elms: Seq<Extension>, j: int, prefix: Seq<char>, ns: Seq<(String, String)>, no_self_yet: bool) -> bool {
    link_href(elms[j], prefix, ns, "hub"@) is Some || (link_href(elms[j], prefix, ns, "self"@) is Some && no_self_yet
        && element_hrefs(elms.subrange(0, j), prefix, ns, "self"@).len() == 0)
}

/// The `link` elements under a prefix after the meta data is taken out: the `href` attribute
/// of each element that `href_taken` picks is removed; the rest is as it was.
pub open spec fn elements_taken(before: Seq<Extension>, after: Seq<Extension>, prefix: Seq<char>, ns: Seq<(String, String)>, no_self_yet: bool) -> bool {
    &&& after.len() == before.len()
    &&& forall|j: int| 0 <= j < before.len() ==> element_taken(before, j, #[trigger] after[j], prefix, ns, no_self_yet)
}

/// The extensions of an RSS channel after the meta data is taken out of its Atom `link`
/// elements (see `rss_entry_taken`).
pub open spec fn rss_links_taken(
    ns: Seq<(String, String)>,
    before: Seq<(String, Vec<(String, Vec<Extension>)>)>,
    after: Seq<(String, Vec<(String, Vec<Extension>)>)>,
) -> bool {
    &&& after.len() == before.len()
    &&& forall|i: int| 0 <= i < before.len() ==> rss_entry_taken(ns, before, i, #[trigger] after[i])
}

/// The index of the `link` entry of an extension map entry list.
fn find_link_index(m: &Vec<(String, Vec<Extension>)>) -> (r: Option<usize>)
    ensures
        r matches Some(k) ==> link_elements(m@) is Some && k == first_index_named(m@, "link"@) && k < m@.len()
            && link_elements(m@) == Some(m@[k as int].1@),
        r is None ==> link_elements(m@) is None,
{
    let ghost f = |p: (String, Vec<Extension>)| if p.0@ == "link"@ { Some(Seq::<char>::empty()) } else { None };
    let mut i: usize = 0;
    proof {
        lemma_first_some_whole(m@, f);
    }
    while i < m.len()
        invariant
            i <= m@.len(),
            f == (|p: (String, Vec<Extension>)| if p.0@ == "link"@ { Some(Seq::<char>::empty()) } else { None }),
            first_some(m@.subrange(0, i as int), f) is None,
            forall|j: int| 0 <= j < i ==> m@[j].0@ != "link"@,
        decreases m@.len() - i,
    {
        proof {
            lemma_first_some_extend(m@, f, i as int);
        }
        if is_named(&m[i].0, "link") {
            proof {
                lemma_first_some_prefix(m@, f, i as int);
                let k = first_index_named(m@, "link"@);
                assert(0 <= i < m@.len() && m@[i as int].0@ == "link"@ && forall|j: int| 0 <= j < i ==> m@[j].0@ != "link"@);
                if k < i {
                    assert(m@[k].0@ != "link"@);
                } else if k > i {
                    assert(m@[i as int].0@ != "link"@);
                }
            }
            return Some(i);
        }
        i = i + 1;
    }
    proof {
        lemma_first_some_whole(m@, f);
    }
    None
}

/// The index of the first pair with the `href` key, where there is one.
fn find_href(pairs: &Vec<(String, String)>) -> (r: Option<usize>)
    ensures
        r matches Some(k) ==> k == first_key_index(pairs@, "href"@) && k < pairs@.len(),
        r is None <==> lookup(pairs@, "href"@) is None,
{
    let ghost f = |p: (String, String)| if p.0@ == "href"@ { Some(p.1@) } else { None };
    let key = String::from_str("href");
    let mut i: usize = 0;
    proof {
        lemma_first_some_whole(pairs@, f);
    }
    while i < pairs.len()
        invariant
            i <= pairs@.len(),
            key@ == "href"@,
            f == (|p: (String, String)| if p.0@ == "href"@ { Some(p.1@) } else { None }),
            first_some(pairs@.subrange(0, i as int), f) is None,
            forall|j: int| 0 <= j < i ==> pairs@[j].0@ != "href"@,
        decreases pairs@.len() - i,
    {
        proof {
            lemma_first_some_extend(pairs@, f, i as int);
        }
        if pairs[i].0 == key {
            proof {
                lemma_first_some_prefix(pairs@, f, i as int);
                let k = first_key_index(pairs@, "href"@);
                assert(0 <= i < pairs@.len() && pairs@[i as int].0@ == "href"@ && forall|j: int| 0 <= j < i ==> pairs@[j].0@ != "href"@);
                if k < i {
                    assert(pairs@[k].0@ != "href"@);
                } else if k > i {
                    assert(pairs@[i as int].0@ != "href"@);
                }
            }
            return Some(i);
        }
        i = i + 1;
    }
    proof {
        lemma_first_some_whole(pairs@, f);
    }
    None
}

/// Removes the `href` attribute of an element that has one.
fn remove_href(e: &mut Extension)
    requires
        lookup(old(e).attrs@, "href"@) is Some,
    ensures
        final(e).name == old(e).name,
        final(e).value == old(e).value,
        final(e).children == old(e).children,
        final(e).attrs@ == old(e).attrs@.remove(first_key_index(old(e).attrs@, "href"@)),
{
    match find_href(&e.attrs) {
        Some(k) => {
            e.attrs.remove(k);
        },
        None => {},
    }
}

/// Takes the topic and the hubs out of the Atom `link` elements of an RSS channel's extensions.
fn take_meta_rss(extensions: &mut ExtensionMap, namespaces: &Vec<(String, String)>) -> (r: Meta)
    ensures
        ({
            let selfs = rss_hrefs(old(extensions)@, namespaces@, "self"@);
            opt_view(r.topic) == if selfs.len() > 0 { Some(selfs[0]) } else { None }
        }),
        r.hubs@.map_values(|h: String| h@) == rss_hrefs(old(extensions)@, namespaces@, "hub"@),
        rss_links_taken(namespaces@, old(extensions)@, final(extensions)@),
{
    let ghost x0 = extensions@;
    let mut topic: Option<String> = None;
    let mut hubs: Vec<String> = Vec::new();
    let mut i: usize = 0;
    proof {
        assert(x0.subrange(0, 0) =~= Seq::<(String, Vec<(String, Vec<Extension>)>)>::empty());
        assert(hubs@.map_values(|h: String| h@) =~= Seq::<Seq<char>>::empty());
    }
    while i < extensions.len()
        invariant
            x0 == old(extensions)@,
            i <= x0.len(),
            extensions@.len() == x0.len(),
            forall|j: int| i <= j < x0.len() ==> extensions@[j] == x0[j],
            forall|j: int| 0 <= j < i ==> rss_entry_taken(namespaces@, x0, j, #[trigger] extensions@[j]),
            ({
                let selfs = rss_hrefs(x0.subrange(0, i as int), namespaces@, "self"@);
                &&& opt_view(topic) == if selfs.len() > 0 { Some(selfs[0]) } else { None }
                &&& topic is None <==> selfs.len() == 0
            }),
            hubs@.map_values(|h: String| h@) == rss_hrefs(x0.subrange(0, i as int), namespaces@, "hub"@),
        decreases x0.len() - i,
    {
        proof {
            assert(x0.subrange(0, i + 1).drop_last() =~= x0.subrange(0, i as int));
        }
        match find_link_index(&extensions[i].1) {
            None => {
                proof {
                    assert(rss_entry_taken(namespaces@, x0, i as int, extensions@[i as int]));
                }
            },
            Some(k) => {
                let ghost elms0 = x0[i as int].1@[k as int].1@;
                let ghost prefix = x0[i as int].0@;
                let ghost selfs0 = rss_hrefs(x0.subrange(0, i as int), namespaces@, "self"@);
                let ghost hubs0 = rss_hrefs(x0.subrange(0, i as int), namespaces@, "hub"@);
                let ghost no_self_yet = selfs0.len() == 0;
                let mut j: usize = 0;
                proof {
                    assert(elms0.subrange(0, 0) =~= Seq::<Extension>::empty());
                    assert(hubs0 + Seq::<Seq<char>>::empty() =~= hubs0);
                    assert(selfs0 + Seq::<Seq<char>>::empty() =~= selfs0);
                }
                while j < extensions[i].1[k].1.len()
                    invariant
                        x0 == old(extensions)@,
                        i < x0.len(),
                        extensions@.len() == x0.len(),
                        forall|t: int| i < t < x0.len() ==> extensions@[t] == x0[t],
                        forall|t: int| 0 <= t < i ==> rss_entry_taken(namespaces@, x0, t, #[trigger] extensions@[t]),
                        extensions@[i as int].0 == x0[i as int].0,
                        prefix == x0[i as int].0@,
                        extensions@[i as int].1@.len() == x0[i as int].1@.len(),
                        k < x0[i as int].1@.len(),
                        forall|t: int| 0 <= t < x0[i as int].1@.len() && t != k ==> extensions@[i as int].1@[t] == x0[i as int].1@[t],
                        extensions@[i as int].1@[k as int].0 == x0[i as int].1@[k as int].0,
                        elms0 == x0[i as int].1@[k as int].1@,
                        extensions@[i as int].1@[k as int].1@.len() == elms0.len(),
                        j <= elms0.len(),
                        forall|t: int| j <= t < elms0.len() ==> extensions@[i as int].1@[k as int].1@[t] == elms0[t],
                        forall|t: int| 0 <= t < j ==> element_taken(elms0, t, #[trigger] extensions@[i as int].1@[k as int].1@[t], prefix, namespaces@, no_self_yet),
                        selfs0 == rss_hrefs(x0.subrange(0, i as int), namespaces@, "self"@),
                        no_self_yet == (selfs0.len() == 0),
                        ({
                            let selfs = selfs0 + element_hrefs(elms0.subrange(0, j as int), prefix, namespaces@, "self"@);
                            &&& opt_view(topic) == if selfs.len() > 0 { Some(selfs[0]) } else { None }
                            &&& topic is None <==> selfs.len() == 0
                        }),
                        hubs@.map_values(|h: String| h@) == hubs0 + element_hrefs(elms0.subrange(0, j as int), prefix, namespaces@, "hub"@),
                    decreases elms0.len() - j,
                {
                    proof {
                        assert(elms0.subrange(0, j + 1).drop_last() =~= elms0.subrange(0, j as int));
                        assert(elms0.subrange(0, j + 1).last() == elms0[j as int]);
                    }
                    let ghost s0 = selfs0 + element_hrefs(elms0.subrange(0, j as int), prefix, namespaces@, "self"@);
                    let h = element_href(&extensions[i].1[k].1[j], &extensions[i].0, namespaces, "hub");
                    let s = element_href(&extensions[i].1[k].1[j], &extensions[i].0, namespaces, "self");
                    let ghost prev = hubs@;
                    let ghost was_none = topic is None;
                    match h {
                        Some(h) => {
                            let ghost hv = h@;
                            remove_href(&mut extensions[i].1[k].1[j]);
                            hubs.push(h);
                            assert(hubs@.map_values(|h: String| h@) =~= prev.map_values(|h: String| h@).push(hv));
                        },
                        None => {
                            if topic.is_none() && s.is_some() {
                                remove_href(&mut extensions[i].1[k].1[j]);
                                topic = s;
                            }
                        },
                    }
                    proof {
                        lemma_hub_self_exclusive(elms0[j as int], prefix, namespaces@);
                        let s1 = selfs0 + element_hrefs(elms0.subrange(0, j + 1), prefix, namespaces@, "self"@);
                        match link_href(elms0[j as int], prefix, namespaces@, "self"@) {
                            Some(x) => {
                                assert(s1 =~= s0.push(x));
                            },
                            None => {
                                assert(s1 =~= s0);
                            },
                        }
                        assert(hubs@.map_values(|h: String| h@) =~= hubs0 + element_hrefs(elms0.subrange(0, j + 1), prefix, namespaces@, "hub"@));
                        assert(was_none == (s0.len() == 0));
                        assert(element_taken(elms0, j as int, extensions@[i as int].1@[k as int].1@[j as int], prefix, namespaces@, no_self_yet));
                    }
                    j = j + 1;
                }
                proof {
                    assert(elms0.subrange(0, elms0.len() as int) =~= elms0);
                    assert(elements_taken(elms0, extensions@[i as int].1@[k as int].1@, prefix, namespaces@, no_self_yet));
                    assert(rss_entry_taken(namespaces@, x0, i as int, extensions@[i as int]));
                }
            },
        }
        i = i + 1;
    }
    proof {
        assert(x0.subrange(0, x0.len() as int) =~= x0);
    }
    Meta { topic, hubs }
}

/// The element at `j` after the meta data is taken out (see `elements_taken`).
pub open spec fn element_taken(before: Seq<Extension>, j: int, after: Extension, prefix: Seq<char>, ns: Seq<(String, String)>, no_self_yet: bool) -> bool {
    &&& after.name == before[j].name
    &&& after.value == before[j].value
    &&& after.children == before[j].children
    &&& if href_taken(before, j, prefix, ns, no_self_yet) {
        after.attrs@ == before[j].attrs@.remove(first_key_index(before[j].attrs@, "href"@))
    } else {
        after.attrs == before[j].attrs
    }
}

/// The entry at `i` of an RSS channel's extensions after the meta data is taken out (see
/// `rss_links_taken`).
pub open spec fn rss_entry_taken(
    ns: Seq<(String, String)>,
    before: Seq<(String, Vec<(String, Vec<Extension>)>)>,
    i: int,
    after: (String, Vec<(String, Vec<Extension>)>),
) -> bool {
    let m0 = before[i].1@;
    let m1 = after.1@;
    &&& after.0 == before[i].0
    &&& m1.len() == m0.len()
    &&& forall|k: int| 0 <= k < m0.len() ==> {
        &&& (#[trigger] m1[k]).0 == m0[k].0
        &&& if link_elements(m0) is Some && k == first_index_named(m0, "link"@) {
            elements_taken(m0[k].1@, m1[k].1@, before[i].0@, ns, rss_hrefs(before.subrange(0, i), ns, "self"@).len() == 0)
        } else {
            m1[k].1 == m0[k].1
        }
    }
}

/// No element is both a `hub` and a `self` link.
proof fn lemma_hub_self_exclusive(e: Extension, prefix: Seq<char>, ns: Seq<(String, String)>)
    ensures
        !(link_href(e, prefix, ns, "hub"@) is Some && link_href(e, prefix, ns, "self"@) is Some),
{
    reveal_strlit("hub");
    reveal_strlit("self");
    assert("hub"@.len() != "self"@.len());
}

/// Where `f` gives nothing for the first `i` items, their prefix gives nothing.
proof fn lemma_first_some_none_before<A>(s: Seq<A>, f: spec_fn(A) -> Option<Seq<char>>, i: int)
    requires
        0 <= i <= s.len(),
        forall|j: int| 0 <= j < i ==> f(#[trigger] s[j]) is None,
    ensures
        first_some(s.subrange(0, i), f) is None,
    decreases i,
{
    if i == 0 {
        lemma_first_some_whole(s, f);
    } else {
        lemma_first_some_none_before(s, f, i - 1);
        lemma_first_some_extend(s, f, i - 1);
    }
}

/// The link of an entry made of an Atom entry: none where the entry has no link; else the
/// `href` of its first `alternate` link, or, where no link is `alternate`, that of its first
/// link.
pub proof fn lemma_atom_entry_link(e: AtomEntry, namespaces: Seq<(String, String)>)
    ensures
        e.links@.len() == 0 ==> atom_entry_view(e, namespaces).link is None,
        e.links@.len() > 0 ==> atom_entry_view(e, namespaces).link is Some,
        forall|i: int|
            0 <= i < e.links@.len() && (#[trigger] e.links@[i]).rel@ == "alternate"@ && (forall|j: int|
                0 <= j < i ==> e.links@[j].rel@ != "alternate"@) ==> atom_entry_view(e, namespaces).link
                == Some(e.links@[i].href@),
        e.links@.len() > 0 && (forall|j: int| 0 <= j < e.links@.len() ==> e.links@[j].rel@ != "alternate"@)
            ==> atom_entry_view(e, namespaces).link == Some(e.links@[0].href@),
{
    let links = e.links@;
    let f = |l: AtomLink| if l.rel@ == "alternate"@ { Some(l.href@) } else { None };
    assert forall|i: int|
        0 <= i < links.len() && (#[trigger] links[i]).rel@ == "alternate"@ && (forall|j: int|
            0 <= j < i ==> links[j].rel@ != "alternate"@) implies atom_link(links) == Some(links[i].href@) by {
        assert forall|j: int| 0 <= j < i implies f(#[trigger] links[j]) is None by {}
        lemma_first_some_none_before(links, f, i);
        lemma_first_some_prefix(links, f, i);
    }
    if links.len() > 0 && (forall|j: int| 0 <= j < links.len() ==> links[j].rel@ != "alternate"@) {
        assert forall|j: int| 0 <= j < links.len() implies f(#[trigger] links[j]) is None by {}
        lemma_first_some_none_before(links, f, links.len() as int);
        lemma_first_some_whole(links, f);
    }
}

/// The link of an entry made of an RSS item: its `link` where it has one; else its `guid`
/// where that is a permalink; else none. A `guid` that is no permalink is never a link.
pub proof fn lemma_rss_entry_link(item: RssItem, namespaces: Seq<(String, String)>)
    ensures
        item.link is Some ==> rss_entry_view(item, namespaces).link == Some(item.link->0@),
        item.link is None && item.guid is None ==> rss_entry_view(item, namespaces).link is None,
        item.link is None && item.guid is Some && item.guid->0.permalink
            ==> rss_entry_view(item, namespaces).link == Some(item.guid->0.value@),
        item.link is None && item.guid is Some && !item.guid->0.permalink
            ==> rss_entry_view(item, namespaces).link is None,
{
}

} // verus!
