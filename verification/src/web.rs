//! URLs, read and written by the `url` crate.
use url::Url;
use vstd::prelude::*;
use vstd::utf8::encode_utf8;

verus! {

/// The last position that the `url` crate can count: it counts in 32 bits.
pub const LAST_POSITION: usize = 0xffff_ffff;

/// What an optional string holds.
pub open spec fn opt_text(text: Option<String>) -> Option<Seq<char>> {
    match text {
        Some(found) => Some(found@),
        None => None,
    }
}

/// What an optional string slice holds.
pub open spec fn opt_str(text: Option<&str>) -> Option<Seq<char>> {
    match text {
        Some(found) => Some(found@),
        None => None,
    }
}

/// What pairs of strings hold.
pub open spec fn pair_texts(pairs: Seq<(String, String)>) -> Seq<(Seq<char>, Seq<char>)> {
    Seq::new(pairs.len(), |i: int| (pairs[i].0@, pairs[i].1@))
}

/// What an optional list of pairs of strings holds.
pub open spec fn opt_pair_texts(pairs: Option<Vec<(String, String)>>) -> Option<
    Seq<(Seq<char>, Seq<char>)>,
> {
    match pairs {
        Some(found) => Some(pair_texts(found@)),
        None => None,
    }
}

/// `Url::parse` accepts the text.
pub uninterp spec fn url_parses(raw: Seq<char>) -> bool;

/// What `Url::host_str` gives for a text, where `Url::parse` accepts it.
pub uninterp spec fn url_host(raw: Seq<char>) -> Option<Seq<char>>;

/// What `Url::path` gives for a text, where `Url::parse` accepts it.
pub uninterp spec fn url_path(raw: Seq<char>) -> Option<Seq<char>>;

/// What `Url::query_pairs` gives for a text, where `Url::parse` accepts it.
pub uninterp spec fn url_query_pairs(raw: Seq<char>) -> Option<Seq<(Seq<char>, Seq<char>)>>;

/// What `Url::as_str` gives for a text, where `Url::parse` accepts it.
pub uninterp spec fn url_text(raw: Seq<char>) -> Option<Seq<char>>;

/// How many bytes a byte of a query takes in a URL: three if it is written as a percent
/// escape, else one. A single quote is escaped in a web address only; it counts as three
/// everywhere.
pub open spec fn byte_room(byte: u8) -> nat {
    if byte <= 0x20 || byte >= 0x7f || byte == 0x22 || byte == 0x23 || byte == 0x27 || byte == 0x3c
        || byte == 0x3e {
        3
    } else {
        1
    }
}

/// How many bytes a query takes in a URL.
pub open spec fn query_room(query: Seq<u8>) -> nat
    decreases query.len(),
{
    if query.len() == 0 {
        0
    } else {
        query_room(query.drop_last()) + byte_room(query.last())
    }
}

/// The URL has room for the query: all positions in it can still be counted when the query
/// stands behind it.
pub open spec fn has_room(text: Seq<char>, query: Seq<char>) -> bool {
    encode_utf8(text).len() + 1 + query_room(encode_utf8(query)) <= LAST_POSITION
}

proof fn beginnings_take_less_room(query: Seq<u8>, n: int)
    requires
        0 <= n <= query.len(),
    ensures
        query_room(query.take(n)) <= query_room(query),
    decreases query.len(),
{
    if n < query.len() {
        beginnings_take_less_room(query.drop_last(), n);
        assert(query.drop_last().take(n) == query.take(n));
    } else {
        assert(query.take(n) == query);
    }
}

/// Whether a URL has room for a query.
pub(crate) fn is_room(text: &str, query: &str) -> (yes: bool)
    ensures
        yes == has_room(text@, query@),
{
    let bytes = query.as_bytes();
    let length: usize = text.as_bytes().len();
    if length >= LAST_POSITION {
        return false;
    }
    let mut used: usize = length + 1;
    assert(bytes@.take(0) == Seq::<u8>::empty());
    for i in 0..bytes.len()
        invariant
            bytes@ == encode_utf8(query@),
            length == encode_utf8(text@).len(),
            used == length + 1 + query_room(bytes@.take(i as int)),
            used <= LAST_POSITION,
    {
        let byte: u8 = bytes[i];
        let more: usize = if byte <= 0x20 || byte >= 0x7f || byte == 0x22 || byte == 0x23 || byte
            == 0x27 || byte == 0x3c || byte == 0x3e {
            3
        } else {
            1
        };
        proof {
            assert(bytes@.take(i + 1).drop_last() == bytes@.take(i as int));
            assert(bytes@.take(i + 1).last() == byte);
            beginnings_take_less_room(bytes@, i + 1);
        }
        if more > LAST_POSITION - used {
            return false;
        }
        used = used + more;
    }
    assert(bytes@.take(bytes@.len() as int) == bytes@);
    true
}

/// What the text is as a URL after `Url::set_query`, where `Url::parse` accepts it.
pub uninterp spec fn url_with_query(raw: Seq<char>, query: Option<Seq<char>>) -> Option<Seq<char>>;

/// What `Url::join` makes of a base and a reference, where both are accepted.
pub uninterp spec fn url_join(base: Seq<char>, reference: Seq<char>) -> Option<Seq<char>>;

/// `Url::host_str` of the parsed text: the host, if the text is a URL and has one.
#[verifier::external_body]
pub(crate) fn host_of(raw: &str) -> (host: Option<String>)
    ensures
        opt_text(host) == url_host(raw@),
        host is Some ==> url_parses(raw@),
{
    match Url::parse(raw) {
        Ok(url) => url.host_str().map(|host| host.to_string()),
        Err(_) => None,
    }
}

/// `Url::as_str` of the parsed text: the URL as it is written, exactly if the text is a
/// URL.
#[verifier::external_body]
pub(crate) fn text_of_url(raw: &str) -> (text: Option<String>)
    ensures
        opt_text(text) == url_text(raw@),
        text is Some <==> url_parses(raw@),
{
    match Url::parse(raw) {
        Ok(url) => Some(url.as_str().to_string()),
        Err(_) => None,
    }
}

/// `Url::path` of the parsed text: the path, exactly if the text is a URL.
#[verifier::external_body]
pub(crate) fn path_of(raw: &str) -> (path: Option<String>)
    ensures
        opt_text(path) == url_path(raw@),
        path is Some <==> url_parses(raw@),
{
    match Url::parse(raw) {
        Ok(url) => Some(url.path().to_string()),
        Err(_) => None,
    }
}

/// `Url::query_pairs` of the parsed text: the decoded names and values of the query in
/// their order, exactly if the text is a URL.
#[verifier::external_body]
pub(crate) fn query_pairs_of(raw: &str) -> (pairs: Option<Vec<(String, String)>>)
    ensures
        opt_pair_texts(pairs) == url_query_pairs(raw@),
        pairs is Some <==> url_parses(raw@),
{
    match Url::parse(raw) {
        Ok(url) => Some(url.query_pairs().map(|(k, v)| (k.into_owned(), v.into_owned())).collect()),
        Err(_) => None,
    }
}

/// The query of the text `changed`, read by `Url::query_pairs`, is `query`, if that is
/// escaped: its parts between `&` signs, each with a name and a value.
pub open spec fn reads_back(changed: Option<Seq<char>>, query: Option<Seq<char>>) -> bool {
    match (changed, query) {
        (Some(text), Some(written)) => crate::query::well_escaped(written) ==> url_query_pairs(text)
            == Some(crate::query::read_query(written)),
        (Some(text), None) => url_query_pairs(text) == Some(Seq::<(Seq<char>, Seq<char>)>::empty()),
        _ => true,
    }
}

/// `Url::set_query` on the parsed text: the URL with another query, or without one,
/// exactly if the text is a URL. The new URL, written out and parsed again, has that query
/// and no other: that a `Url` as it is written parses to itself is an invariant of the
/// type. This is said only of a query without tabs, line breaks and percent signs
/// but those of ASCII escapes: `set_query` drops the former, and takes the latter as they
/// stand. The call panics where a position in the new URL does not fit in 32 bits, so
/// there has to be room for a query.
#[verifier::external_body]
pub(crate) fn with_query(raw: &str, query: Option<&str>) -> (changed: Option<String>)
    requires
        url_text(raw@) is Some && query is Some ==> has_room(url_text(raw@)->0, query->0@),
    ensures
        opt_text(changed) == url_with_query(raw@, opt_str(query)),
        changed is Some <==> url_parses(raw@),
        reads_back(opt_text(changed), opt_str(query)),
{
    match Url::parse(raw) {
        Ok(mut url) => {
            url.set_query(query);
            Some(url.to_string())
        },
        Err(_) => None,
    }
}

/// `Url::join` on the parsed base: the reference resolved against it, if the base is a
/// URL and the reference can be resolved.
#[verifier::external_body]
pub(crate) fn join_urls(base: &str, reference: &str) -> (joined: Option<String>)
    ensures
        opt_text(joined) == url_join(base@, reference@),
{
    match Url::parse(base) {
        Ok(url) => url.join(reference).ok().map(|joined| joined.to_string()),
        Err(_) => None,
    }
}

} // verus!
