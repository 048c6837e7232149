//! Takes trackers, analytics scripts and tracking parameters out of fetched pages
//! before they are cached or served.
use vstd::prelude::*;
use vstd::utf8::decode_utf8;
use vstd::utf8::encode_utf8;

use crate::page::Element;
use crate::page::select;
use crate::page::ElementModel;
use crate::query::escape;
use crate::query::pair_text;
use crate::query::queries_are_read_back;
use crate::query::query_text;
use crate::query::read_query;
use crate::query::PairModel;
use crate::ranges::cut_ranges;
use crate::text::append_chars;
use crate::text::chars_of;
use crate::text::contains;
use crate::text::count_bytes;
use crate::text::ends_with;
use crate::text::find_char;
use crate::text::find_from;
use crate::text::same_text;
use crate::text::same_text_but_case;
use crate::text::str_texts;
use crate::text::text_of;
use crate::text::trim;
use crate::web::host_of;
use crate::web::is_room;
use crate::web::query_pairs_of;
use crate::web::text_of_url;
use crate::web::with_query;

verus! {

/// The domains whose scripts are trackers.
pub open spec fn tracker_domains() -> Seq<Seq<char>> {
    seq![
        "google-analytics.com"@,
        "googletagmanager.com"@,
        "googletagservices.com"@,
        "googlesyndication.com"@,
        "doubleclick.net"@,
        "facebook.net"@,
        "facebook.com"@,
        "fbcdn.net"@,
        "analytics.twitter.com"@,
        "static.ads-twitter.com"@,
        "platform.twitter.com"@,
        "connect.facebook.net"@,
        "bat.bing.com"@,
        "clarity.ms"@,
        "hotjar.com"@,
        "fullstory.com"@,
        "heap.io"@,
        "mixpanel.com"@,
        "segment.com"@,
        "amplitude.com"@,
        "intercom.io"@,
        "crisp.chat"@,
        "cdn.segment.com"@,
        "sentry.io"@,
        "bugsnag.com"@,
        "newrelic.com"@,
        "nr-data.net"@,
    ]
}

fn tracker_domain_list() -> (list: Vec<&'static str>)
    ensures
        str_texts(list@) == tracker_domains(),
{
    let list: Vec<&'static str> = vec![
        "google-analytics.com",
        "googletagmanager.com",
        "googletagservices.com",
        "googlesyndication.com",
        "doubleclick.net",
        "facebook.net",
        "facebook.com",
        "fbcdn.net",
        "analytics.twitter.com",
        "static.ads-twitter.com",
        "platform.twitter.com",
        "connect.facebook.net",
        "bat.bing.com",
        "clarity.ms",
        "hotjar.com",
        "fullstory.com",
        "heap.io",
        "mixpanel.com",
        "segment.com",
        "amplitude.com",
        "intercom.io",
        "crisp.chat",
        "cdn.segment.com",
        "sentry.io",
        "bugsnag.com",
        "newrelic.com",
        "nr-data.net",
    ];
    list
}

/// The query parameters that serve tracking only.
pub open spec fn tracking_params() -> Seq<Seq<char>> {
    seq![
        "utm_source"@,
        "utm_medium"@,
        "utm_campaign"@,
        "utm_term"@,
        "utm_content"@,
        "utm_id"@,
        "utm_reader"@,
        "utm_name"@,
        "fbclid"@,
        "gclid"@,
        "gclsrc"@,
        "dclid"@,
        "msclkid"@,
        "ttclid"@,
        "_ga"@,
        "_gl"@,
        "mc_cid"@,
        "mc_eid"@,
        "ref"@,
        "source"@,
        "si"@,
        "igshid"@,
    ]
}

fn tracking_param_list() -> (list: Vec<&'static str>)
    ensures
        str_texts(list@) == tracking_params(),
{
    let list: Vec<&'static str> = vec![
        "utm_source",
        "utm_medium",
        "utm_campaign",
        "utm_term",
        "utm_content",
        "utm_id",
        "utm_reader",
        "utm_name",
        "fbclid",
        "gclid",
        "gclsrc",
        "dclid",
        "msclkid",
        "ttclid",
        "_ga",
        "_gl",
        "mc_cid",
        "mc_eid",
        "ref",
        "source",
        "si",
        "igshid",
    ];
    list
}

/// `host` is one of the tracker domains or below one.
pub open spec fn tracker_host(host: Seq<char>) -> bool {
    exists|i: int|
        0 <= i < tracker_domains().len() && host_within(host, #[trigger] tracker_domains()[i])
}

/// `host` is `domain` or below it.
pub open spec fn host_within(host: Seq<char>, domain: Seq<char>) -> bool {
    host == domain || crate::text::ends(host, "."@ + domain)
}

/// Whether a host is one of the tracker domains or below one.
pub fn host_is_tracker(host: &str) -> (yes: bool)
    ensures
        yes == tracker_host(host@),
{
    let list = tracker_domain_list();
    let chars = chars_of(host);
    for i in 0..list.len()
        invariant
            chars@ == host@,
            str_texts(list@) == tracker_domains(),
            forall|j: int| 0 <= j < i ==> !host_within(host@, #[trigger] tracker_domains()[j]),
    {
        assert(list@[i as int]@ == tracker_domains()[i as int]);
        let mut below = ".".to_owned();
        below.append(list[i]);
        if same_text(host, list[i]) || ends_with(chars.as_slice(), below.as_str()) {
            return true;
        }
    }
    false
}

/// The address `src` is a URL whose host is a tracker.
pub open spec fn tracker_address(src: Seq<char>) -> bool {
    match crate::web::url_host(src) {
        Some(host) => tracker_host(host),
        None => false,
    }
}

/// Whether an address is a URL whose host is a tracker.
pub fn domain_is_tracker(src: &str) -> (yes: bool)
    ensures
        yes == tracker_address(src@),
{
    match host_of(src) {
        Some(host) => host_is_tracker(host.as_str()),
        None => false,
    }
}

/// `name` is a tracking parameter, in whatever case.
pub open spec fn tracking_param(name: Seq<char>) -> bool {
    exists|i: int|
        0 <= i < tracking_params().len() && crate::text::same_but_case(
            name,
            #[trigger] tracking_params()[i],
        )
}

/// Whether a query parameter serves tracking only.
pub fn is_tracking_param(name: &str) -> (yes: bool)
    ensures
        yes == tracking_param(name@),
{
    let list = tracking_param_list();
    for i in 0..list.len()
        invariant
            str_texts(list@) == tracking_params(),
            forall|j: int|
                0 <= j < i ==> !crate::text::same_but_case(name@, #[trigger] tracking_params()[j]),
    {
        assert(list@[i as int]@ == tracking_params()[i as int]);
        if same_text_but_case(name, list[i]) {
            return true;
        }
    }
    false
}

/// The pairs whose names are no tracking parameters, in their order.
pub open spec fn kept_pairs(pairs: Seq<PairModel>) -> Seq<PairModel>
    decreases pairs.len(),
{
    if pairs.len() == 0 {
        Seq::empty()
    } else if tracking_param(pairs.last().0) {
        kept_pairs(pairs.drop_last())
    } else {
        kept_pairs(pairs.drop_last()).push(pairs.last())
    }
}

/// The query that is left of `pairs` without tracking parameters; none if nothing is left.
pub open spec fn clean_query(pairs: Seq<PairModel>) -> Option<Seq<char>> {
    if kept_pairs(pairs).len() == 0 {
        None
    } else {
        Some(query_text(kept_pairs(pairs)))
    }
}

/// The query that is left of the names and values in `pairs` without tracking
/// parameters; none if nothing is left.
pub fn query_without_tracking(pairs: &Vec<(String, String)>) -> (query: Option<String>)
    ensures
        crate::web::opt_text(query) == clean_query(crate::web::pair_texts(pairs@)),
{
    let ghost all = crate::web::pair_texts(pairs@);
    let mut kept: usize = 0;
    let mut query = String::new();
    for i in 0..pairs.len()
        invariant
            all == crate::web::pair_texts(pairs@),
            kept <= i,
            kept == kept_pairs(all.take(i as int)).len(),
            query@ == query_text(kept_pairs(all.take(i as int))),
    {
        let ghost before = kept_pairs(all.take(i as int));
        assert(all.take(i + 1).drop_last() == all.take(i as int));
        assert(all.take(i + 1).last() == (pairs@[i as int].0@, pairs@[i as int].1@));
        if !is_tracking_param(pairs[i].0.as_str()) {
            let ghost old_query = query@;
            if kept > 0 {
                query.append("&");
            }
            query.append(escape(pairs[i].0.as_str(), true).as_str());
            query.append("=");
            query.append(escape(pairs[i].1.as_str(), false).as_str());
            kept = kept + 1;
            proof {
                let after = kept_pairs(all.take(i + 1));
                let last = pair_text((pairs@[i as int].0@, pairs@[i as int].1@));
                assert(after.drop_last() == before);
                assert(after.last() == (pairs@[i as int].0@, pairs@[i as int].1@));
                if before.len() == 0 {
                    assert(query@ == last);
                } else {
                    assert(query@ == old_query + "&"@ + last);
                }
            }
        }
    }
    assert(all.take(all.len() as int) == all);
    if kept == 0 {
        None
    } else {
        Some(query)
    }
}

/// `raw` without tracking parameters, if it is a URL; else `raw` as it is.
pub open spec fn cleaned(raw: Seq<char>) -> Seq<char> {
    match crate::web::url_query_pairs(raw) {
        Some(pairs) => match crate::web::url_with_query(raw, clean_query(pairs)) {
            Some(text) => text,
            None => raw,
        },
        None => raw,
    }
}

/// If `raw` is a URL, it has room for the query that is left of it.
pub open spec fn cleanable(raw: Seq<char>) -> bool {
    match (crate::web::url_text(raw), crate::web::url_query_pairs(raw)) {
        (Some(text), Some(pairs)) => match clean_query(pairs) {
            Some(query) => crate::web::has_room(text, query),
            None => true,
        },
        _ => true,
    }
}

/// `raw` without tracking parameters, if it is a URL and is short enough to be written
/// anew; else `raw` as it is.
pub open spec fn cleaned_if_short(raw: Seq<char>) -> Seq<char> {
    if cleanable(raw) {
        cleaned(raw)
    } else {
        raw
    }
}

/// The URL `raw` without tracking parameters: the parameters that are left are those that
/// do not serve tracking, with their values. What is no URL comes back as it is.
pub fn clean_url(raw: &str) -> (clean: String)
    requires
        cleanable(raw@),
    ensures
        clean@ == cleaned(raw@),
        crate::web::url_query_pairs(raw@) matches Some(pairs) ==> crate::web::url_query_pairs(
            clean@,
        ) == Some(kept_pairs(pairs)),
{
    match query_pairs_of(raw) {
        None => raw.to_owned(),
        Some(pairs) => {
            let query = query_without_tracking(&pairs);
            proof {
                queries_are_read_back(kept_pairs(crate::web::pair_texts(pairs@)));
            }
            let changed = match &query {
                Some(text) => with_query(raw, Some(text.as_str())),
                None => with_query(raw, None),
            };
            match changed {
                Some(text) => text,
                None => raw.to_owned(),
            }
        },
    }
}

/// The URL `raw` without tracking parameters, or nothing if the URL or the query that
/// is left of it is too long to be written anew.
pub fn clean_url_if_short(raw: &str) -> (clean: Option<String>)
    ensures
        clean is Some <==> cleanable(raw@),
        clean is Some ==> clean->0@ == cleaned(raw@),
        clean is Some && crate::web::url_query_pairs(raw@) is Some ==> crate::web::url_query_pairs(
            clean->0@,
        ) == Some(kept_pairs(crate::web::url_query_pairs(raw@)->0)),
{
    if let (Some(text), Some(pairs)) = (text_of_url(raw), query_pairs_of(raw)) {
        if let Some(query) = query_without_tracking(&pairs) {
            if !is_room(text.as_str(), query.as_str()) {
                return None;
            }
        }
    }
    Some(clean_url(raw))
}

/// How many times as long an address in a page may become by cleaning. A page of two
/// mebibytes whose addresses all grow so far is still short enough for the parser.
pub const MAX_GROWTH: usize = 128;

/// What cleaning makes of the address `raw` in a page. One that could not be written anew,
/// or would become longer than [`MAX_GROWTH`] allows, stays as it is.
pub open spec fn cleaned_in_page(raw: Seq<char>) -> Seq<char> {
    if cleanable(raw) && encode_utf8(cleaned(raw)).len() <= MAX_GROWTH * encode_utf8(raw).len() {
        cleaned(raw)
    } else {
        raw
    }
}

fn clean_in_page(raw: String) -> (clean: String)
    ensures
        clean@ == cleaned_in_page(raw@),
{
    match clean_url_if_short(raw.as_str()) {
        Some(address) => {
            let length: usize = address.as_str().as_bytes().len();
            let before: usize = raw.as_str().as_bytes().len();
            if length as u128 <= MAX_GROWTH as u128 * before as u128 {
                address
            } else {
                raw
            }
        },
        None => raw,
    }
}

/// How an attribute with a web address begins, and how much of that comes before the
/// address.
pub open spec fn address_attrs() -> Seq<(Seq<char>, int)> {
    seq![
        ("href=\"https://"@, 6),
        ("href=\"http://"@, 6),
        ("action=\"https://"@, 8),
        ("action=\"http://"@, 8),
    ]
}

/// The first attribute in `html` that begins with `opening`: where it stands, and where
/// the address in it starts and ends. There is none without a closing quote.
pub open spec fn address_after(html: Seq<char>, opening: Seq<char>, lead: int) -> Option<
    (int, int, int),
> {
    match crate::text::next_occurrence(html, opening, 0) {
        Some(at) => {
            let end = crate::text::next_at(html, '"', at + lead);
            if end < html.len() {
                Some((at, at + lead, end))
            } else {
                None
            }
        },
        None => None,
    }
}

/// The one of two attributes that comes first.
pub open spec fn earlier(a: Option<(int, int, int)>, b: Option<(int, int, int)>) -> Option<
    (int, int, int),
> {
    match (a, b) {
        (Some(x), Some(y)) => if y.0 < x.0 {
            b
        } else {
            a
        },
        (Some(_), None) => a,
        (None, _) => b,
    }
}

/// The first attribute with an address among those that the first `n` openings find.
pub open spec fn first_address(html: Seq<char>, n: int) -> Option<(int, int, int)>
    decreases n,
{
    if n <= 0 {
        None
    } else {
        earlier(
            first_address(html, n - 1),
            address_after(html, address_attrs()[n - 1].0, address_attrs()[n - 1].1),
        )
    }
}

/// The first attribute with an address in `html`.
pub open spec fn address_in(html: Seq<char>) -> Option<(int, int, int)> {
    first_address(html, 4)
}

proof fn next_at_is_sound(text: Seq<char>, c: char, from: int)
    requires
        0 <= from <= text.len(),
    ensures
        from <= crate::text::next_at(text, c, from) <= text.len(),
    decreases text.len() - from,
{
    if from < text.len() && text[from] != c {
        next_at_is_sound(text, c, from + 1);
    }
}

proof fn openings_are_long()
    ensures
        forall|i: int|
            0 <= i < 4 ==> 0 < (#[trigger] address_attrs()[i]).1 <= address_attrs()[i].0.len(),
{
    reveal_strlit("href=\"https://");
    reveal_strlit("href=\"http://");
    reveal_strlit("action=\"https://");
    reveal_strlit("action=\"http://");
}

/// An address lies within the text, behind the start of its attribute.
pub proof fn address_is_inside(html: Seq<char>, n: int)
    requires
        0 <= n <= 4,
    ensures
        first_address(html, n) matches Some(found) ==> 0 <= found.0 < found.1 <= found.2
            < html.len(),
    decreases n,
{
    if n > 0 {
        address_is_inside(html, n - 1);
        openings_are_long();
        let (opening, lead) = address_attrs()[n - 1];
        crate::text::occurrence_is_sound(html, opening, 0);
        if let Some(at) = crate::text::next_occurrence(html, opening, 0) {
            next_at_is_sound(html, '"', at + lead);
        }
    }
}

/// `html` with every address in it cleaned of tracking parameters.
pub open spec fn rewritten(html: Seq<char>) -> Seq<char>
    decreases html.len(),
{
    match address_in(html) {
        None => html,
        Some(found) => {
            proof {
                address_is_inside(html, 4);
            }
            html.take(found.1) + cleaned_in_page(html.subrange(found.1, found.2)) + rewritten(
                html.skip(found.2),
            )
        },
    }
}

/// Cleaning makes a page at most so many times as long, in bytes, as it may make an
/// address.
pub proof fn growth_is_bounded(html: Seq<char>)
    ensures
        encode_utf8(rewritten(html)).len() <= MAX_GROWTH * encode_utf8(html).len(),
    decreases html.len(),
{
    if let Some(found) = address_in(html) {
        address_is_inside(html, 4);
        let front = html.take(found.1);
        let address = html.subrange(found.1, found.2);
        let rest = html.skip(found.2);
        growth_is_bounded(rest);
        assert(html == front + address + rest);
        crate::text::encoding_adds_up(front, address);
        crate::text::encoding_adds_up(front + address, rest);
        crate::text::encoding_adds_up(front, cleaned_in_page(address));
        crate::text::encoding_adds_up(front + cleaned_in_page(address), rewritten(rest));
    }
}

/// What positions in a program say as mathematical values.
pub open spec fn opt_ints(found: Option<(usize, usize, usize)>) -> Option<(int, int, int)> {
    match found {
        Some(at) => Some((at.0 as int, at.1 as int, at.2 as int)),
        None => None,
    }
}

/// The first attribute with an address in `html`, in characters: where it stands, and
/// where the address in it starts and ends.
fn find_address(html: &[char]) -> (found: Option<(usize, usize, usize)>)
    ensures
        opt_ints(found) == address_in(html@),
        found matches Some(at) ==> at.0 < at.1 <= at.2 < html@.len(),
{
    let openings: Vec<(&'static str, usize)> = vec![
        ("href=\"https://", 6),
        ("href=\"http://", 6),
        ("action=\"https://", 8),
        ("action=\"http://", 8),
    ];
    let mut earliest: Option<(usize, usize, usize)> = None;
    let length: usize = html.len();
    proof {
        openings_are_long();
    }
    for i in 0..openings.len()
        invariant
            openings.len() == 4,
            length == html@.len(),
            forall|j: int|
                0 <= j < 4 ==> (#[trigger] openings@[j]).0@ == address_attrs()[j].0
                    && openings@[j].1 == address_attrs()[j].1,
            forall|j: int|
                0 <= j < 4 ==> 0 < (#[trigger] address_attrs()[j]).1 <= address_attrs()[j].0.len(),
            opt_ints(earliest) == first_address(html@, i as int),
    {
        let opening = chars_of(openings[i].0);
        let lead: usize = openings[i].1;
        assert(opening@ == address_attrs()[i as int].0);
        proof {
            crate::text::occurrence_is_sound(html@, opening@, 0);
        }
        if let Some(at) = find_from(html, opening.as_slice(), 0) {
            assert(at + lead <= length);
            let start: usize = at + lead;
            let end = find_char(html, '"', start);
            if end < length {
                let take = match earliest {
                    None => true,
                    Some(first) => at < first.0,
                };
                if take {
                    earliest = Some((at, start, end));
                }
            }
        }
    }
    proof {
        address_is_inside(html@, 4);
    }
    earliest
}

/// The first attribute with an address in `html`, in bytes: where its value starts, and
/// where the address in the value starts and ends. The value starts with the address.
pub open spec fn address_bytes(html: Seq<char>) -> Option<(int, int, int)> {
    match address_in(html) {
        Some(found) => Some(
            (
                crate::text::bytes_before(html, found.1),
                crate::text::bytes_before(html, found.1),
                crate::text::bytes_before(html, found.2),
            ),
        ),
        None => None,
    }
}

/// The first attribute with an address in `html`, in bytes: where its value starts, and
/// where the address in the value starts and ends.
pub fn find_url_attr(html: &str) -> (found: Option<(usize, usize, usize)>)
    ensures
        opt_ints(found) == address_bytes(html@),
{
    let chars = chars_of(html);
    match find_address(chars.as_slice()) {
        Some((_, start, end)) => {
            let from = count_bytes(chars.as_slice(), start);
            let to = count_bytes(chars.as_slice(), end);
            Some((from, from, to))
        },
        None => None,
    }
}

/// `html` with every address in it cleaned of tracking parameters.
pub fn rewrite_urls(html: &str) -> (clean: String)
    ensures
        clean@ == rewritten(html@),
        encode_utf8(clean@).len() <= MAX_GROWTH * encode_utf8(html@).len(),
{
    let chars = chars_of(html);
    let mut out: Vec<char> = Vec::new();
    let mut from: usize = 0;
    proof {
        growth_is_bounded(html@);
    }
    assert(html@.skip(0) == html@);
    loop
        invariant
            chars@ == html@,
            encode_utf8(rewritten(html@)).len() <= MAX_GROWTH * encode_utf8(html@).len(),
            from <= chars.len(),
            out@ + rewritten(html@.skip(from as int)) == rewritten(html@),
        decreases chars.len() - from,
    {
        let rest = vstd::slice::slice_subrange(chars.as_slice(), from, chars.len());
        assert(rest@ == html@.skip(from as int));
        match find_address(rest) {
            Some((_, start, end)) => {
                let raw = text_of(vstd::slice::slice_subrange(rest, start, end));
                let ghost before = out@;
                append_chars(&mut out, vstd::slice::slice_subrange(rest, 0, start));
                let ghost address = raw@;
                let clean = clean_in_page(raw);
                append_chars(&mut out, chars_of(clean.as_str()).as_slice());
                proof {
                    assert(out@ == before + (rest@.take(start as int) + cleaned_in_page(address)));
                    assert(rest@.skip(end as int) == html@.skip(from + end));
                }
                from = from + end;
            },
            None => {
                append_chars(&mut out, rest);
                return text_of(out.as_slice());
            },
        }
    }
}

/// What an attribute holds; nothing if it is not there.
pub open spec fn attr_text(attr: Option<Seq<char>>) -> Seq<char> {
    match attr {
        Some(text) => text,
        None => Seq::empty(),
    }
}

/// A width or height of one pixel or none.
pub open spec fn pixel_side(attr: Option<Seq<char>>) -> bool {
    let side = crate::text::trimmed(attr_text(attr));
    side == "1"@ || side == "0"@
}

/// An image of at most one pixel each way.
pub open spec fn tracking_pixel(image: ElementModel) -> bool {
    pixel_side(image.width) && pixel_side(image.height)
}

/// A script that sets up a tracker.
pub open spec fn tracker_code(code: Seq<char>) -> bool {
    ||| crate::text::occurs(code, "gtag("@)
    ||| crate::text::occurs(code, "GoogleAnalyticsObject"@)
    ||| crate::text::occurs(code, "fbq("@)
    ||| crate::text::occurs(code, "_fbq"@)
}

fn attr_str<'a>(attr: &'a Option<String>) -> (text: &'a str)
    ensures
        text@ == attr_text(crate::web::opt_text(*attr)),
{
    match attr {
        Some(text) => text.as_str(),
        None => {
            proof {
                reveal_strlit("");
            }
            ""
        },
    }
}

fn is_pixel_side(attr: &Option<String>) -> (yes: bool)
    ensures
        yes == pixel_side(crate::web::opt_text(*attr)),
{
    let chars = chars_of(attr_str(attr));
    let side = text_of(trim(chars.as_slice()));
    same_text(side.as_str(), "1") || same_text(side.as_str(), "0")
}

/// Whether an image is at most one pixel each way.
pub fn is_tracking_pixel(image: &Element) -> (yes: bool)
    ensures
        yes == tracking_pixel(image@),
{
    is_pixel_side(&image.width) && is_pixel_side(&image.height)
}

/// Whether the code of a script sets up a tracker.
pub fn is_tracker_code(code: &str) -> (yes: bool)
    ensures
        yes == tracker_code(code@),
{
    let chars = chars_of(code);
    contains(chars.as_slice(), "gtag(") || contains(chars.as_slice(), "GoogleAnalyticsObject")
        || contains(chars.as_slice(), "fbq(") || contains(chars.as_slice(), "_fbq")
}

/// Where in `html` a text of `outer`'s length stands that begins with character `at`, in
/// bytes.
pub open spec fn place_at(html: Seq<char>, outer: Seq<char>, at: int) -> (usize, usize) {
    (
        crate::text::bytes_before(html, at) as usize,
        crate::text::bytes_before(html, at + outer.len()) as usize,
    )
}

/// Where in `html` the text `outer` stands for the first time, in bytes.
pub open spec fn first_place(html: Seq<char>, outer: Seq<char>) -> Option<(usize, usize)> {
    match crate::text::next_occurrence(html, outer, 0) {
        Some(at) => Some(place_at(html, outer, at)),
        None => None,
    }
}

/// Where in `html` the text `outer` stands from character `from` on, in bytes.
pub open spec fn places_from(html: Seq<char>, outer: Seq<char>, from: int) -> Seq<(usize, usize)>
    decreases html.len() + 1 - from,
{
    if from < 0 || outer.len() == 0 {
        Seq::empty()
    } else {
        match crate::text::next_occurrence(html, outer, from) {
            Some(at) => {
                proof {
                    crate::text::occurrence_is_sound(html, outer, from);
                }
                seq![place_at(html, outer, at)] + places_from(html, outer, at + 1)
            },
            None => Seq::empty(),
        }
    }
}

/// What an element can be as a tracker.
#[derive(Debug, Clone, Copy, PartialEq, Eq, Structural)]
pub enum TrackerKind {
    /// A script that comes from a tracker, or sets one up.
    Script,
    /// An image of at most one pixel each way.
    Pixel,
    /// A link that prepares a connection to a tracker.
    Hint,
}

/// The element is a tracker of the kind.
pub open spec fn is_tracker(kind: TrackerKind, element: ElementModel) -> bool {
    match kind {
        TrackerKind::Script => tracker_address(attr_text(element.src)) || tracker_code(
            element.inner_html,
        ),
        TrackerKind::Pixel => tracking_pixel(element),
        TrackerKind::Hint => tracker_address(attr_text(element.href)),
    }
}

/// The places in `html` of the trackers of the kind among `elements`.
pub open spec fn places_of(
    html: Seq<char>,
    elements: Seq<ElementModel>,
    kind: TrackerKind,
) -> Seq<(usize, usize)>
    decreases elements.len(),
{
    if elements.len() == 0 {
        Seq::empty()
    } else {
        places_of(html, elements.drop_last(), kind) + if is_tracker(kind, elements.last()) {
            places_from(html, elements.last().outer_html, 0)
        } else {
            Seq::empty()
        }
    }
}

/// The places of everything that goes.
pub open spec fn tracker_places(
    html: Seq<char>,
    scripts: Seq<ElementModel>,
    images: Seq<ElementModel>,
    links: Seq<ElementModel>,
) -> Seq<(usize, usize)> {
    places_of(html, scripts, TrackerKind::Script) + places_of(html, images, TrackerKind::Pixel)
        + places_of(html, links, TrackerKind::Hint)
}

fn byte_place(html: &[char], at: usize, length: usize) -> (place: (usize, usize))
    requires
        at + length <= html@.len(),
    ensures
        place.0 == crate::text::bytes_before(html@, at as int),
        place.1 == crate::text::bytes_before(html@, at + length),
{
    let all: usize = html.len();
    assert(at + length <= all);
    (count_bytes(html, at), count_bytes(html, at + length))
}

/// Where in the source `html` of a page the element stands, in bytes: where its HTML
/// stands for the first time, if it stands there as it is.
pub fn source_range(html: &str, element: &Element) -> (place: Option<(usize, usize)>)
    ensures
        place == first_place(html@, element.outer_html@),
{
    let chars = chars_of(html);
    let outer = chars_of(element.outer_html.as_str());
    match find_from(chars.as_slice(), outer.as_slice(), 0) {
        Some(at) => Some(byte_place(chars.as_slice(), at, outer.len())),
        None => None,
    }
}

/// Where in the source `html` of a page the element stands, in bytes: everywhere its HTML
/// stands.
pub fn source_ranges(html: &str, element: &Element) -> (places: Vec<(usize, usize)>)
    ensures
        places@ == places_from(html@, element.outer_html@, 0),
{
    let chars = chars_of(html);
    let outer = chars_of(element.outer_html.as_str());
    let mut places: Vec<(usize, usize)> = Vec::new();
    if outer.len() == 0 {
        return places;
    }
    let mut from: usize = 0;
    let length: usize = chars.len();
    loop
        invariant
            chars@ == html@,
            length == chars@.len(),
            outer@ == element.outer_html@,
            outer@.len() > 0,
            from <= length,
            places@ + places_from(html@, outer@, from as int) == places_from(html@, outer@, 0),
        decreases length + 1 - from,
    {
        match find_from(chars.as_slice(), outer.as_slice(), from) {
            Some(at) => {
                let ghost before = places@;
                places.push(byte_place(chars.as_slice(), at, outer.len()));
                assert(places@ == before.push(place_at(html@, outer@, at as int)));
                assert(places@ + places_from(html@, outer@, at + 1) == before + places_from(
                    html@,
                    outer@,
                    from as int,
                ));
                from = at + 1;
            },
            None => {
                return places;
            },
        }
    }
}

/// Whether the element is a tracker of the kind.
pub fn is_tracker_element(kind: TrackerKind, element: &Element) -> (yes: bool)
    ensures
        yes == is_tracker(kind, element@),
{
    match kind {
        TrackerKind::Script => domain_is_tracker(attr_str(&element.src)) || is_tracker_code(
            element.inner_html.as_str(),
        ),
        TrackerKind::Pixel => is_tracking_pixel(element),
        TrackerKind::Hint => domain_is_tracker(attr_str(&element.href)),
    }
}

fn push_places(
    places: &mut Vec<(usize, usize)>,
    html: &str,
    elements: &Vec<Element>,
    kind: TrackerKind,
)
    ensures
        final(places)@ == old(places)@ + places_of(
            html@,
            crate::page::element_views(elements@),
            kind,
        ),
{
    let ghost all = crate::page::element_views(elements@);
    let ghost start = places@;
    for i in 0..elements.len()
        invariant
            all == crate::page::element_views(elements@),
            places@ == start + places_of(html@, all.take(i as int), kind),
    {
        let element = &elements[i];
        assert(all.take(i + 1).drop_last() == all.take(i as int));
        assert(all.take(i + 1).last() == element@);
        if is_tracker_element(kind, element) {
            let more = source_ranges(html, element);
            let ghost before = places@;
            for k in 0..more.len()
                invariant
                    places@ == before + more@.take(k as int),
            {
                places.push(more[k]);
            }
            assert(more@.take(more@.len() as int) == more@);
        }
    }
    assert(all.take(all.len() as int) == all);
}

/// The places of the trackers among scripts, images and links of the page `html`.
pub fn find_trackers(
    html: &str,
    scripts: &Vec<Element>,
    images: &Vec<Element>,
    links: &Vec<Element>,
) -> (places: Vec<(usize, usize)>)
    ensures
        places@ == tracker_places(
            html@,
            crate::page::element_views(scripts@),
            crate::page::element_views(images@),
            crate::page::element_views(links@),
        ),
{
    let mut places: Vec<(usize, usize)> = Vec::new();
    push_places(&mut places, html, scripts, TrackerKind::Script);
    push_places(&mut places, html, images, TrackerKind::Pixel);
    push_places(&mut places, html, links, TrackerKind::Hint);
    places
}

/// `html` without the bytes in `places`.
pub open spec fn html_without(html: Seq<char>, places: Seq<(usize, usize)>) -> Seq<char> {
    decode_utf8(
        crate::ranges::outside(encode_utf8(html), places, encode_utf8(html).len() as int),
    )
}

spec fn all_cut_cleanly(bytes: Seq<u8>, places: Seq<(usize, usize)>) -> bool {
    forall|i: int|
        0 <= i < places.len() ==> crate::ranges::cuts_cleanly(bytes, #[trigger] places[i])
}

proof fn cutting_adds_up(bytes: Seq<u8>, a: Seq<(usize, usize)>, b: Seq<(usize, usize)>)
    requires
        all_cut_cleanly(bytes, a),
        all_cut_cleanly(bytes, b),
    ensures
        all_cut_cleanly(bytes, a + b),
{
    assert forall|i: int| 0 <= i < (a + b).len() implies crate::ranges::cuts_cleanly(
        bytes,
        #[trigger] (a + b)[i],
    ) by {
        if i < a.len() {
            assert(crate::ranges::cuts_cleanly(bytes, a[i]));
        } else {
            assert(crate::ranges::cuts_cleanly(bytes, b[i - a.len()]));
        }
    }
}

proof fn places_cut_cleanly(html: Seq<char>, outer: Seq<char>, from: int)
    requires
        encode_utf8(html).len() <= usize::MAX,
    ensures
        all_cut_cleanly(encode_utf8(html), places_from(html, outer, from)),
    decreases html.len() + 1 - from,
{
    if from >= 0 && outer.len() > 0 {
        crate::text::occurrence_is_sound(html, outer, from);
        if let Some(at) = crate::text::next_occurrence(html, outer, from) {
            places_cut_cleanly(html, outer, at + 1);
            crate::text::characters_end_at_boundaries(html, at);
            crate::text::characters_end_at_boundaries(html, at + outer.len());
            crate::text::bytes_grow(html, at, at + outer.len());
            cutting_adds_up(
                encode_utf8(html),
                seq![place_at(html, outer, at)],
                places_from(html, outer, at + 1),
            );
        }
    }
}

proof fn trackers_cut_cleanly(html: Seq<char>, elements: Seq<ElementModel>, kind: TrackerKind)
    requires
        encode_utf8(html).len() <= usize::MAX,
    ensures
        all_cut_cleanly(encode_utf8(html), places_of(html, elements, kind)),
    decreases elements.len(),
{
    if elements.len() > 0 {
        trackers_cut_cleanly(html, elements.drop_last(), kind);
        places_cut_cleanly(html, elements.last().outer_html, 0);
        cutting_adds_up(
            encode_utf8(html),
            places_of(html, elements.drop_last(), kind),
            if is_tracker(kind, elements.last()) {
                places_from(html, elements.last().outer_html, 0)
            } else {
                Seq::empty()
            },
        );
    }
}

/// `html` without the trackers among its elements, and with every address in the rest
/// cleaned of tracking parameters.
pub fn strip_elements(
    html: &str,
    scripts: &Vec<Element>,
    images: &Vec<Element>,
    links: &Vec<Element>,
) -> (clean: String)
    ensures
        clean@ == rewritten(
            html_without(
                html@,
                tracker_places(
                    html@,
                    crate::page::element_views(scripts@),
                    crate::page::element_views(images@),
                    crate::page::element_views(links@),
                ),
            ),
        ),
        encode_utf8(clean@).len() <= MAX_GROWTH * encode_utf8(html@).len(),
{
    let places = find_trackers(html, scripts, images, links);
    let length: usize = html.as_bytes().len();
    proof {
        assert(length == encode_utf8(html@).len());
        let bytes = encode_utf8(html@);
        let a = crate::page::element_views(scripts@);
        let b = crate::page::element_views(images@);
        let c = crate::page::element_views(links@);
        trackers_cut_cleanly(html@, a, TrackerKind::Script);
        trackers_cut_cleanly(html@, b, TrackerKind::Pixel);
        trackers_cut_cleanly(html@, c, TrackerKind::Hint);
        let from_scripts = places_of(html@, a, TrackerKind::Script);
        let from_images = places_of(html@, b, TrackerKind::Pixel);
        cutting_adds_up(bytes, from_scripts, from_images);
        cutting_adds_up(
            bytes,
            from_scripts + from_images,
            places_of(html@, c, TrackerKind::Hint),
        );
    }
    let rest = cut_ranges(html, &places);
    proof {
        vstd::utf8::encode_utf8_decode_utf8(rest@);
        crate::ranges::cutting_adds_nothing(encode_utf8(html@), places@, length as int);
    }
    rewrite_urls(rest.as_str())
}

/// What picks the scripts of a page.
pub open spec fn script_selector() -> Seq<char> {
    "script"@
}

/// What picks the images of a page.
pub open spec fn image_selector() -> Seq<char> {
    "img"@
}

/// What picks the links of a page that prepare a connection.
pub open spec fn hint_selector() -> Seq<char> {
    "link[rel='preconnect'], link[rel='dns-prefetch']"@
}

/// The places of the trackers in the page `html`.
pub open spec fn trackers_of(html: Seq<char>) -> Seq<(usize, usize)> {
    tracker_places(
        html,
        crate::page::selected(html, script_selector()),
        crate::page::selected(html, image_selector()),
        crate::page::selected(html, hint_selector()),
    )
}

/// The page `html` without its trackers, and with the tracking parameters taken out of
/// its addresses.
pub open spec fn stripped(html: Seq<char>) -> Seq<char> {
    rewritten(html_without(html, trackers_of(html)))
}

/// The page `html` with its trackers stripped: scripts that come from a tracker or set
/// one up, tracking pixels, links that prepare a connection to a tracker, and the
/// tracking parameters of the addresses. An element is found in the source by its HTML as
/// the parser writes it; one that the source writes otherwise stays.
pub fn strip(html: &str, _base_url: &str) -> (clean: String)
    requires
        crate::page::parsable(html@),
    ensures
        clean@ == stripped(html@),
        encode_utf8(clean@).len() <= MAX_GROWTH * encode_utf8(html@).len(),
{
    let scripts = select(html, "script");
    let images = select(html, "img");
    let links = select(html, "link[rel='preconnect'], link[rel='dns-prefetch']");
    strip_elements(html, &scripts, &images, &links)
}

/// A tracker among the elements of a page.
pub open spec fn is_tracker_among(
    element: ElementModel,
    scripts: Seq<ElementModel>,
    images: Seq<ElementModel>,
    links: Seq<ElementModel>,
) -> bool {
    ||| scripts.contains(element) && is_tracker(TrackerKind::Script, element)
    ||| images.contains(element) && is_tracker(TrackerKind::Pixel, element)
    ||| links.contains(element) && is_tracker(TrackerKind::Hint, element)
}

/// `place` is one where the HTML of `element` stands.
pub open spec fn is_place_of(
    html: Seq<char>,
    element: ElementModel,
    place: (usize, usize),
) -> bool {
    exists|at: int|
        #[trigger] crate::text::occurs_at(html, element.outer_html, at) && place == place_at(
            html,
            element.outer_html,
            at,
        )
}

pub proof fn places_are_occurrences(
    html: Seq<char>,
    outer: Seq<char>,
    from: int,
    place: (usize, usize),
)
    requires
        from >= 0,
        outer.len() > 0,
    ensures
        places_from(html, outer, from).contains(place) <==> exists|at: int|
            from <= at && #[trigger] crate::text::occurs_at(html, outer, at) && place == place_at(
                html,
                outer,
                at,
            ),
    decreases html.len() + 1 - from,
{
    crate::text::occurrence_is_sound(html, outer, from);
    crate::text::occurrence_is_first(html, outer, from);
    let all = places_from(html, outer, from);
    if let Some(first) = crate::text::next_occurrence(html, outer, from) {
        places_are_occurrences(html, outer, first + 1, place);
        let rest = places_from(html, outer, first + 1);
        assert(all == seq![place_at(html, outer, first)] + rest);
        if all.contains(place) {
            let i = choose|i: int| 0 <= i < all.len() && all[i] == place;
            if i == 0 {
                assert(crate::text::occurs_at(html, outer, first));
            } else {
                assert(rest[i - 1] == place);
            }
        }
        if rest.contains(place) {
            let i = choose|i: int| 0 <= i < rest.len() && rest[i] == place;
            assert(all[i + 1] == place);
        }
        assert(all[0] == place_at(html, outer, first));
    }
}

/// A place is listed exactly if it is one of a tracker of the kind.
spec fn listed_for(
    html: Seq<char>,
    elements: Seq<ElementModel>,
    kind: TrackerKind,
    place: (usize, usize),
    element: ElementModel,
) -> bool {
    &&& elements.contains(element)
    &&& is_tracker(kind, element)
    &&& element.outer_html.len() > 0
    &&& is_place_of(html, element, place)
}

proof fn places_are_listed(
    html: Seq<char>,
    elements: Seq<ElementModel>,
    kind: TrackerKind,
    place: (usize, usize),
)
    ensures
        places_of(html, elements, kind).contains(place) <==> exists|element: ElementModel|
            #[trigger] listed_for(html, elements, kind, place, element),
    decreases elements.len(),
{
    if elements.len() > 0 {
        let front = elements.drop_last();
        let last = elements.last();
        places_are_listed(html, front, kind, place);
        let more = if is_tracker(kind, last) {
            places_from(html, last.outer_html, 0)
        } else {
            Seq::empty()
        };
        contains_of_sum(places_of(html, front, kind), more, place);
        assert(elements[elements.len() - 1] == last);
        if last.outer_html.len() > 0 {
            places_are_occurrences(html, last.outer_html, 0, place);
        }
        if more.contains(place) {
            assert(last.outer_html.len() > 0);
            assert(listed_for(html, elements, kind, place, last));
        }
        if places_of(html, front, kind).contains(place) {
            let element = choose|element: ElementModel| #[trigger]
                listed_for(html, front, kind, place, element);
            let i = choose|i: int| 0 <= i < front.len() && front[i] == element;
            assert(elements[i] == element);
            assert(listed_for(html, elements, kind, place, element));
        }
        if exists|element: ElementModel| #[trigger]
            listed_for(html, elements, kind, place, element) {
            let element = choose|element: ElementModel| #[trigger]
                listed_for(html, elements, kind, place, element);
            let i = choose|i: int| 0 <= i < elements.len() && elements[i] == element;
            if i < front.len() {
                assert(front[i] == element);
                assert(listed_for(html, front, kind, place, element));
            } else {
                let at = choose|at: int| #[trigger]
                    crate::text::occurs_at(html, element.outer_html, at) && place == place_at(
                        html,
                        element.outer_html,
                        at,
                    );
                assert(crate::text::occurs_at(html, last.outer_html, at) && at >= 0);
                assert(more.contains(place));
            }
        }
    } else {
        assert forall|element: ElementModel| !#[trigger]
            listed_for(html, elements, kind, place, element) by {}
    }
}

proof fn contains_of_sum(a: Seq<(usize, usize)>, b: Seq<(usize, usize)>, place: (usize, usize))
    ensures
        (a + b).contains(place) <==> a.contains(place) || b.contains(place),
{
    let all = a + b;
    if all.contains(place) {
        let i = choose|i: int| 0 <= i < all.len() && all[i] == place;
        if i < a.len() {
            assert(a[i] == place);
        } else {
            assert(b[i - a.len()] == place);
        }
    }
    if a.contains(place) {
        let i = choose|i: int| 0 <= i < a.len() && a[i] == place;
        assert(all[i] == place);
    }
    if b.contains(place) {
        let i = choose|i: int| 0 <= i < b.len() && b[i] == place;
        assert(all[a.len() + i] == place);
    }
}

/// What is cut out of a page are its trackers and nothing else: a place is cut exactly if
/// it is one where the HTML of a tracker among the elements stands.
pub proof fn trackers_and_nothing_else_are_cut(
    html: Seq<char>,
    scripts: Seq<ElementModel>,
    images: Seq<ElementModel>,
    links: Seq<ElementModel>,
    place: (usize, usize),
)
    ensures
        tracker_places(html, scripts, images, links).contains(place) <==> exists|
            element: ElementModel,
        | #[trigger]
            is_tracker_among(element, scripts, images, links) && element.outer_html.len() > 0
                && is_place_of(html, element, place),
{
    let a = places_of(html, scripts, TrackerKind::Script);
    let b = places_of(html, images, TrackerKind::Pixel);
    let c = places_of(html, links, TrackerKind::Hint);
    places_are_listed(html, scripts, TrackerKind::Script, place);
    places_are_listed(html, images, TrackerKind::Pixel, place);
    places_are_listed(html, links, TrackerKind::Hint, place);
    contains_of_sum(a, b, place);
    contains_of_sum(a + b, c, place);
    if a.contains(place) {
        let element = choose|element: ElementModel| #[trigger]
            listed_for(html, scripts, TrackerKind::Script, place, element);
        assert(is_tracker_among(element, scripts, images, links));
    }
    if b.contains(place) {
        let element = choose|element: ElementModel| #[trigger]
            listed_for(html, images, TrackerKind::Pixel, place, element);
        assert(is_tracker_among(element, scripts, images, links));
    }
    if c.contains(place) {
        let element = choose|element: ElementModel| #[trigger]
            listed_for(html, links, TrackerKind::Hint, place, element);
        assert(is_tracker_among(element, scripts, images, links));
    }
    assert forall|element: ElementModel| #[trigger]
        is_tracker_among(element, scripts, images, links) && element.outer_html.len() > 0
            && is_place_of(html, element, place) implies tracker_places(
        html,
        scripts,
        images,
        links,
    ).contains(place) by {
        if scripts.contains(element) && is_tracker(TrackerKind::Script, element) {
            assert(listed_for(html, scripts, TrackerKind::Script, place, element));
        } else if images.contains(element) && is_tracker(TrackerKind::Pixel, element) {
            assert(listed_for(html, images, TrackerKind::Pixel, place, element));
        } else {
            assert(listed_for(html, links, TrackerKind::Hint, place, element));
        }
    }
}

/// Every address in `html` is as cleaning leaves it.
pub open spec fn addresses_clean(html: Seq<char>) -> bool
    decreases html.len(),
{
    match address_in(html) {
        None => true,
        Some(found) => {
            proof {
                address_is_inside(html, 4);
            }
            let address = html.subrange(found.1, found.2);
            cleaned_in_page(address) == address && addresses_clean(html.skip(found.2))
        },
    }
}

/// A page whose addresses need no cleaning comes back as it is.
pub proof fn clean_pages_stay(html: Seq<char>)
    requires
        addresses_clean(html),
    ensures
        rewritten(html) == html,
    decreases html.len(),
{
    if let Some(found) = address_in(html) {
        address_is_inside(html, 4);
        clean_pages_stay(html.skip(found.2));
        assert(html == html.take(found.1) + html.subrange(found.1, found.2) + html.skip(found.2));
    }
}

/// Cleaning a query leaves no tracking parameter and takes nothing else away: a pair is
/// left exactly if it was there and its name is no tracking parameter.
pub proof fn cleaning_drops_only_trackers(
    pairs: Seq<PairModel>,
    pair: PairModel,
)
    ensures
        kept_pairs(pairs).contains(pair) <==> pairs.contains(pair) && !tracking_param(pair.0),
    decreases pairs.len(),
{
    if pairs.len() > 0 {
        let front = pairs.drop_last();
        cleaning_drops_only_trackers(front, pair);
        if pairs.contains(pair) {
            let i = choose|i: int| 0 <= i < pairs.len() && pairs[i] == pair;
            if i < front.len() {
                assert(front[i] == pair);
            }
        }
        if front.contains(pair) {
            let i = choose|i: int| 0 <= i < front.len() && front[i] == pair;
            assert(pairs[i] == pair);
        }
        assert(pairs[pairs.len() - 1] == pairs.last());
        let before = kept_pairs(front);
        let kept = kept_pairs(pairs);
        if before.contains(pair) {
            let i = choose|i: int| 0 <= i < before.len() && before[i] == pair;
            assert(kept[i] == pair);
        }
        if !tracking_param(pairs.last().0) {
            assert(kept[kept.len() - 1] == pairs.last());
        }
        if kept.contains(pair) {
            let i = choose|i: int| 0 <= i < kept.len() && kept[i] == pair;
            if i < before.len() {
                assert(before[i] == pair);
            }
        }
    }
}

/// No tracking parameter is left: the query that is left is read as the pairs whose names
/// are no tracking parameters, whatever the names and values hold.
pub proof fn clean_query_names_no_tracker(pairs: Seq<PairModel>)
    ensures
        clean_query(pairs) matches Some(query) ==> read_query(query) == kept_pairs(pairs),
        clean_query(pairs) is None ==> kept_pairs(pairs) == Seq::<PairModel>::empty(),
        forall|i: int|
            0 <= i < kept_pairs(pairs).len() ==> !tracking_param(
                (#[trigger] kept_pairs(pairs)[i]).0,
            ),
{
    queries_are_read_back(kept_pairs(pairs));
    assert forall|i: int| 0 <= i < kept_pairs(pairs).len() implies !tracking_param(
        (#[trigger] kept_pairs(pairs)[i]).0,
    ) by {
        cleaning_drops_only_trackers(pairs, kept_pairs(pairs)[i]);
    }
}

/// A query that has been cleaned stays as it is when it is cleaned again.
pub proof fn cleaning_twice_is_cleaning_once(pairs: Seq<PairModel>)
    ensures
        kept_pairs(kept_pairs(pairs)) == kept_pairs(pairs),
    decreases pairs.len(),
{
    if pairs.len() > 0 {
        cleaning_twice_is_cleaning_once(pairs.drop_last());
        if !tracking_param(pairs.last().0) {
            assert(kept_pairs(pairs).drop_last() == kept_pairs(pairs.drop_last()));
        }
    }
}

} // verus!
