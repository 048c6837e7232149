//! Promises about tracking: which parameters go from a URL, which elements go from a page,
//! and that everything else stays.
use vstd::prelude::*;
use vstd::utf8::decode_utf8;
use vstd::utf8::encode_utf8;

use crate::laws::text::alike;
use crate::laws::text::finishes;
use crate::laws::text::holds;
use crate::laws::text::holds_behind;
use crate::laws::text::starts;
use crate::page::ElementModel;
use crate::query::PairModel;
use crate::tracker_strip::TrackerKind;

verus! {

/// A parameter serves tracking exactly if the whole of its name is one of these, in
/// whatever case. A name that only begins with one of them does not.
pub proof fn tracking_names(name: Seq<char>)
    ensures
        crate::tracker_strip::tracking_param(name) <==> (
            alike(name, "utm_source"@)
            || alike(name, "utm_medium"@)
            || alike(name, "utm_campaign"@)
            || alike(name, "utm_term"@)
            || alike(name, "utm_content"@)
            || alike(name, "utm_id"@)
            || alike(name, "utm_reader"@)
            || alike(name, "utm_name"@)
            || alike(name, "fbclid"@)
            || alike(name, "gclid"@)
            || alike(name, "gclsrc"@)
            || alike(name, "dclid"@)
            || alike(name, "msclkid"@)
            || alike(name, "ttclid"@)
            || alike(name, "_ga"@)
            || alike(name, "_gl"@)
            || alike(name, "mc_cid"@)
            || alike(name, "mc_eid"@)
            || alike(name, "ref"@)
            || alike(name, "source"@)
            || alike(name, "si"@)
            || alike(name, "igshid"@)
        ),
{
    let list = crate::tracker_strip::tracking_params();
    crate::laws::text::case_only(name, "utm_source"@);
    assert(list[0] == "utm_source"@);
    crate::laws::text::case_only(name, "utm_medium"@);
    assert(list[1] == "utm_medium"@);
    crate::laws::text::case_only(name, "utm_campaign"@);
    assert(list[2] == "utm_campaign"@);
    crate::laws::text::case_only(name, "utm_term"@);
    assert(list[3] == "utm_term"@);
    crate::laws::text::case_only(name, "utm_content"@);
    assert(list[4] == "utm_content"@);
    crate::laws::text::case_only(name, "utm_id"@);
    assert(list[5] == "utm_id"@);
    crate::laws::text::case_only(name, "utm_reader"@);
    assert(list[6] == "utm_reader"@);
    crate::laws::text::case_only(name, "utm_name"@);
    assert(list[7] == "utm_name"@);
    crate::laws::text::case_only(name, "fbclid"@);
    assert(list[8] == "fbclid"@);
    crate::laws::text::case_only(name, "gclid"@);
    assert(list[9] == "gclid"@);
    crate::laws::text::case_only(name, "gclsrc"@);
    assert(list[10] == "gclsrc"@);
    crate::laws::text::case_only(name, "dclid"@);
    assert(list[11] == "dclid"@);
    crate::laws::text::case_only(name, "msclkid"@);
    assert(list[12] == "msclkid"@);
    crate::laws::text::case_only(name, "ttclid"@);
    assert(list[13] == "ttclid"@);
    crate::laws::text::case_only(name, "_ga"@);
    assert(list[14] == "_ga"@);
    crate::laws::text::case_only(name, "_gl"@);
    assert(list[15] == "_gl"@);
    crate::laws::text::case_only(name, "mc_cid"@);
    assert(list[16] == "mc_cid"@);
    crate::laws::text::case_only(name, "mc_eid"@);
    assert(list[17] == "mc_eid"@);
    crate::laws::text::case_only(name, "ref"@);
    assert(list[18] == "ref"@);
    crate::laws::text::case_only(name, "source"@);
    assert(list[19] == "source"@);
    crate::laws::text::case_only(name, "si"@);
    assert(list[20] == "si"@);
    crate::laws::text::case_only(name, "igshid"@);
    assert(list[21] == "igshid"@);
    if crate::tracker_strip::tracking_param(name) {
        let i = choose|i: int|
            0 <= i < list.len() && crate::text::same_but_case(name, #[trigger] list[i]);
        crate::laws::text::case_only(name, list[i]);
    }
}

proof fn kept_are_filtered(pairs: Seq<PairModel>, keeps: spec_fn(PairModel) -> bool)
    requires
        forall|pair: PairModel|
            #[trigger] keeps(pair) <==> !crate::tracker_strip::tracking_param(pair.0),
    ensures
        crate::tracker_strip::kept_pairs(pairs) == pairs.filter(keeps),
    decreases pairs.len(),
{
    reveal(Seq::filter);
    if pairs.len() > 0 {
        kept_are_filtered(pairs.drop_last(), keeps);
        assert(keeps(pairs.last()) <==> !crate::tracker_strip::tracking_param(pairs.last().0));
    }
}

/// Cleaning keeps a pair exactly if the whole of its name is none of these, in whatever
/// case. The pairs that are kept stay as they are and in their order.
pub proof fn pairs_go_by_their_whole_name(pairs: Seq<PairModel>)
    ensures
        crate::tracker_strip::kept_pairs(pairs) == pairs.filter(
            |pair: PairModel|
                !(
                    alike(pair.0, "utm_source"@)
                    || alike(pair.0, "utm_medium"@)
                    || alike(pair.0, "utm_campaign"@)
                    || alike(pair.0, "utm_term"@)
                    || alike(pair.0, "utm_content"@)
                    || alike(pair.0, "utm_id"@)
                    || alike(pair.0, "utm_reader"@)
                    || alike(pair.0, "utm_name"@)
                    || alike(pair.0, "fbclid"@)
                    || alike(pair.0, "gclid"@)
                    || alike(pair.0, "gclsrc"@)
                    || alike(pair.0, "dclid"@)
                    || alike(pair.0, "msclkid"@)
                    || alike(pair.0, "ttclid"@)
                    || alike(pair.0, "_ga"@)
                    || alike(pair.0, "_gl"@)
                    || alike(pair.0, "mc_cid"@)
                    || alike(pair.0, "mc_eid"@)
                    || alike(pair.0, "ref"@)
                    || alike(pair.0, "source"@)
                    || alike(pair.0, "si"@)
                    || alike(pair.0, "igshid"@)
                ),
        ),
{
    let keeps = |pair: PairModel|
        !(
            alike(pair.0, "utm_source"@)
            || alike(pair.0, "utm_medium"@)
            || alike(pair.0, "utm_campaign"@)
            || alike(pair.0, "utm_term"@)
            || alike(pair.0, "utm_content"@)
            || alike(pair.0, "utm_id"@)
            || alike(pair.0, "utm_reader"@)
            || alike(pair.0, "utm_name"@)
            || alike(pair.0, "fbclid"@)
            || alike(pair.0, "gclid"@)
            || alike(pair.0, "gclsrc"@)
            || alike(pair.0, "dclid"@)
            || alike(pair.0, "msclkid"@)
            || alike(pair.0, "ttclid"@)
            || alike(pair.0, "_ga"@)
            || alike(pair.0, "_gl"@)
            || alike(pair.0, "mc_cid"@)
            || alike(pair.0, "mc_eid"@)
            || alike(pair.0, "ref"@)
            || alike(pair.0, "source"@)
            || alike(pair.0, "si"@)
            || alike(pair.0, "igshid"@)
        );
    assert forall|pair: PairModel| #[trigger] keeps(pair) <==> !crate::tracker_strip::tracking_param(
        pair.0,
    ) by {
        tracking_names(pair.0);
    }
    kept_are_filtered(pairs, keeps);
}

/// `host` is `domain` or below it.
pub open spec fn on_domain(host: Seq<char>, domain: Seq<char>) -> bool {
    host == domain || finishes(host, "."@ + domain)
}

/// An address leads to a tracker exactly if it is a URL whose host is one of these domains
/// or below one.
pub proof fn tracker_sites(address: Seq<char>)
    ensures
        crate::tracker_strip::tracker_address(address) <==> crate::web::url_host(
            address,
        ) is Some && ({
            let host = crate::web::url_host(address)->0;
            on_domain(host, "google-analytics.com"@)
            || on_domain(host, "googletagmanager.com"@)
            || on_domain(host, "googletagservices.com"@)
            || on_domain(host, "googlesyndication.com"@)
            || on_domain(host, "doubleclick.net"@)
            || on_domain(host, "facebook.net"@)
            || on_domain(host, "facebook.com"@)
            || on_domain(host, "fbcdn.net"@)
            || on_domain(host, "analytics.twitter.com"@)
            || on_domain(host, "static.ads-twitter.com"@)
            || on_domain(host, "platform.twitter.com"@)
            || on_domain(host, "connect.facebook.net"@)
            || on_domain(host, "bat.bing.com"@)
            || on_domain(host, "clarity.ms"@)
            || on_domain(host, "hotjar.com"@)
            || on_domain(host, "fullstory.com"@)
            || on_domain(host, "heap.io"@)
            || on_domain(host, "mixpanel.com"@)
            || on_domain(host, "segment.com"@)
            || on_domain(host, "amplitude.com"@)
            || on_domain(host, "intercom.io"@)
            || on_domain(host, "crisp.chat"@)
            || on_domain(host, "cdn.segment.com"@)
            || on_domain(host, "sentry.io"@)
            || on_domain(host, "bugsnag.com"@)
            || on_domain(host, "newrelic.com"@)
            || on_domain(host, "nr-data.net"@)
        }),
{
    let list = crate::tracker_strip::tracker_domains();
    if let Some(host) = crate::web::url_host(address) {
        crate::laws::text::ending(host, "."@ + "google-analytics.com"@);
        assert(list[0] == "google-analytics.com"@);
        crate::laws::text::ending(host, "."@ + "googletagmanager.com"@);
        assert(list[1] == "googletagmanager.com"@);
        crate::laws::text::ending(host, "."@ + "googletagservices.com"@);
        assert(list[2] == "googletagservices.com"@);
        crate::laws::text::ending(host, "."@ + "googlesyndication.com"@);
        assert(list[3] == "googlesyndication.com"@);
        crate::laws::text::ending(host, "."@ + "doubleclick.net"@);
        assert(list[4] == "doubleclick.net"@);
        crate::laws::text::ending(host, "."@ + "facebook.net"@);
        assert(list[5] == "facebook.net"@);
        crate::laws::text::ending(host, "."@ + "facebook.com"@);
        assert(list[6] == "facebook.com"@);
        crate::laws::text::ending(host, "."@ + "fbcdn.net"@);
        assert(list[7] == "fbcdn.net"@);
        crate::laws::text::ending(host, "."@ + "analytics.twitter.com"@);
        assert(list[8] == "analytics.twitter.com"@);
        crate::laws::text::ending(host, "."@ + "static.ads-twitter.com"@);
        assert(list[9] == "static.ads-twitter.com"@);
        crate::laws::text::ending(host, "."@ + "platform.twitter.com"@);
        assert(list[10] == "platform.twitter.com"@);
        crate::laws::text::ending(host, "."@ + "connect.facebook.net"@);
        assert(list[11] == "connect.facebook.net"@);
        crate::laws::text::ending(host, "."@ + "bat.bing.com"@);
        assert(list[12] == "bat.bing.com"@);
        crate::laws::text::ending(host, "."@ + "clarity.ms"@);
        assert(list[13] == "clarity.ms"@);
        crate::laws::text::ending(host, "."@ + "hotjar.com"@);
        assert(list[14] == "hotjar.com"@);
        crate::laws::text::ending(host, "."@ + "fullstory.com"@);
        assert(list[15] == "fullstory.com"@);
        crate::laws::text::ending(host, "."@ + "heap.io"@);
        assert(list[16] == "heap.io"@);
        crate::laws::text::ending(host, "."@ + "mixpanel.com"@);
        assert(list[17] == "mixpanel.com"@);
        crate::laws::text::ending(host, "."@ + "segment.com"@);
        assert(list[18] == "segment.com"@);
        crate::laws::text::ending(host, "."@ + "amplitude.com"@);
        assert(list[19] == "amplitude.com"@);
        crate::laws::text::ending(host, "."@ + "intercom.io"@);
        assert(list[20] == "intercom.io"@);
        crate::laws::text::ending(host, "."@ + "crisp.chat"@);
        assert(list[21] == "crisp.chat"@);
        crate::laws::text::ending(host, "."@ + "cdn.segment.com"@);
        assert(list[22] == "cdn.segment.com"@);
        crate::laws::text::ending(host, "."@ + "sentry.io"@);
        assert(list[23] == "sentry.io"@);
        crate::laws::text::ending(host, "."@ + "bugsnag.com"@);
        assert(list[24] == "bugsnag.com"@);
        crate::laws::text::ending(host, "."@ + "newrelic.com"@);
        assert(list[25] == "newrelic.com"@);
        crate::laws::text::ending(host, "."@ + "nr-data.net"@);
        assert(list[26] == "nr-data.net"@);
        if crate::tracker_strip::tracker_host(host) {
            let i = choose|i: int|
                0 <= i < list.len() && crate::tracker_strip::host_within(host, #[trigger] list[i]);
            crate::laws::text::ending(host, "."@ + list[i]);
        }
    }
}

/// What an attribute says; nothing where it is missing.
pub open spec fn said(attr: Option<Seq<char>>) -> Seq<char> {
    match attr {
        Some(text) => text,
        None => Seq::empty(),
    }
}

/// The code of a script sets up a tracker exactly if it holds one of these four texts.
pub proof fn tracker_code_holds(code: Seq<char>)
    ensures
        crate::tracker_strip::tracker_code(code) <==> holds(code, "gtag("@) || holds(
            code,
            "GoogleAnalyticsObject"@,
        ) || holds(code, "fbq("@) || holds(code, "_fbq"@),
{
    crate::laws::text::standing_somewhere(code, "gtag("@);
    crate::laws::text::standing_somewhere(code, "GoogleAnalyticsObject"@);
    crate::laws::text::standing_somewhere(code, "fbq("@);
    crate::laws::text::standing_somewhere(code, "_fbq"@);
}

/// A script is a tracker if its address leads to one or its code holds one of four texts,
/// an image if both its sides are one pixel or none, a hint if its address leads to a
/// tracker; nothing else is one.
pub proof fn trackers_are_these(element: ElementModel)
    ensures
        crate::tracker_strip::is_tracker(TrackerKind::Script, element)
            <==> crate::tracker_strip::tracker_address(said(element.src)) || holds(
            element.inner_html,
            "gtag("@,
        ) || holds(element.inner_html, "GoogleAnalyticsObject"@) || holds(
            element.inner_html,
            "fbq("@,
        ) || holds(element.inner_html, "_fbq"@),
        crate::tracker_strip::is_tracker(TrackerKind::Pixel, element) <==> (crate::text::trimmed(
            said(element.width),
        ) == "1"@ || crate::text::trimmed(said(element.width)) == "0"@) && (crate::text::trimmed(
            said(element.height),
        ) == "1"@ || crate::text::trimmed(said(element.height)) == "0"@),
        crate::tracker_strip::is_tracker(TrackerKind::Hint, element)
            <==> crate::tracker_strip::tracker_address(said(element.href)),
{
    tracker_code_holds(element.inner_html);
}

/// The page has this element, and it is a tracker: a script whose address leads to one or
/// whose code holds one of four texts, an image of at most one pixel each way, or a hint to
/// connect to a tracker.
pub open spec fn goes(html: Seq<char>, element: ElementModel) -> bool {
    ||| {
        &&& crate::page::selected(html, "script"@).contains(element)
        &&& {
            ||| crate::tracker_strip::tracker_address(said(element.src))
            ||| holds(element.inner_html, "gtag("@)
            ||| holds(element.inner_html, "GoogleAnalyticsObject"@)
            ||| holds(element.inner_html, "fbq("@)
            ||| holds(element.inner_html, "_fbq"@)
        }
    }
    ||| {
        &&& crate::page::selected(html, "img"@).contains(element)
        &&& crate::text::trimmed(said(element.width)) == "1"@ || crate::text::trimmed(
            said(element.width),
        ) == "0"@
        &&& crate::text::trimmed(said(element.height)) == "1"@ || crate::text::trimmed(
            said(element.height),
        ) == "0"@
    }
    ||| {
        &&& crate::page::selected(
            html,
            "link[rel='preconnect'], link[rel='dns-prefetch']"@,
        ).contains(element)
        &&& crate::tracker_strip::tracker_address(said(element.href))
    }
}

proof fn goes_if_tracker(html: Seq<char>, element: ElementModel)
    ensures
        goes(html, element) <==> crate::tracker_strip::is_tracker_among(
            element,
            crate::page::selected(html, "script"@),
            crate::page::selected(html, "img"@),
            crate::page::selected(html, "link[rel='preconnect'], link[rel='dns-prefetch']"@),
        ),
{
    trackers_are_these(element);
}

proof fn no_tracker_no_place(html: Seq<char>, elements: Seq<ElementModel>, kind: TrackerKind)
    requires
        forall|i: int|
            0 <= i < elements.len() ==> !crate::tracker_strip::is_tracker(
                kind,
                #[trigger] elements[i],
            ),
    ensures
        crate::tracker_strip::places_of(html, elements, kind) == Seq::<(usize, usize)>::empty(),
    decreases elements.len(),
{
    if elements.len() > 0 {
        assert(!crate::tracker_strip::is_tracker(kind, elements[elements.len() - 1]));
        assert forall|i: int| 0 <= i < elements.drop_last().len() implies
            !crate::tracker_strip::is_tracker(kind, #[trigger] elements.drop_last()[i]) by {
            assert(elements.drop_last()[i] == elements[i]);
        }
        no_tracker_no_place(html, elements.drop_last(), kind);
    }
}

/// Where the page has no tracker, nothing is cut: all that stripping does is clean the
/// addresses. A script whose address leads to no tracker and whose code holds none of the
/// four texts stays, whatever else it does; so does an image with a side of more than a
/// pixel, and a hint to anywhere else.
pub proof fn what_is_no_tracker_stays(html: Seq<char>)
    requires
        forall|i: int|
            0 <= i < crate::page::selected(html, "script"@).len() ==> ({
                let script = #[trigger] crate::page::selected(html, "script"@)[i];
                &&& !crate::tracker_strip::tracker_address(said(script.src))
                &&& !holds(script.inner_html, "gtag("@)
                &&& !holds(script.inner_html, "GoogleAnalyticsObject"@)
                &&& !holds(script.inner_html, "fbq("@)
                &&& !holds(script.inner_html, "_fbq"@)
            }),
        forall|i: int|
            0 <= i < crate::page::selected(html, "img"@).len() ==> ({
                let image = #[trigger] crate::page::selected(html, "img"@)[i];
                let width = crate::text::trimmed(said(image.width));
                let height = crate::text::trimmed(said(image.height));
                (width != "1"@ && width != "0"@) || (height != "1"@ && height != "0"@)
            }),
        forall|i: int|
            0 <= i < crate::page::selected(
                html,
                "link[rel='preconnect'], link[rel='dns-prefetch']"@,
            ).len() ==> !crate::tracker_strip::tracker_address(
                said(
                    (#[trigger] crate::page::selected(
                        html,
                        "link[rel='preconnect'], link[rel='dns-prefetch']"@,
                    )[i]).href,
                ),
            ),
    ensures
        crate::tracker_strip::stripped(html) == crate::tracker_strip::rewritten(html),
        !holds(html, "href=\"http://"@) && !holds(html, "href=\"https://"@) && !holds(
            html,
            "action=\"http://"@,
        ) && !holds(html, "action=\"https://"@) ==> crate::tracker_strip::stripped(html) == html,
{
    let scripts = crate::page::selected(html, "script"@);
    let images = crate::page::selected(html, "img"@);
    let hints = crate::page::selected(html, "link[rel='preconnect'], link[rel='dns-prefetch']"@);
    assert forall|i: int| 0 <= i < scripts.len() implies !crate::tracker_strip::is_tracker(
        TrackerKind::Script,
        #[trigger] scripts[i],
    ) by {
        trackers_are_these(scripts[i]);
    }
    assert forall|i: int| 0 <= i < images.len() implies !crate::tracker_strip::is_tracker(
        TrackerKind::Pixel,
        #[trigger] images[i],
    ) by {
        trackers_are_these(images[i]);
    }
    assert forall|i: int| 0 <= i < hints.len() implies !crate::tracker_strip::is_tracker(
        TrackerKind::Hint,
        #[trigger] hints[i],
    ) by {
        trackers_are_these(hints[i]);
    }
    no_tracker_no_place(html, scripts, TrackerKind::Script);
    no_tracker_no_place(html, images, TrackerKind::Pixel);
    no_tracker_no_place(html, hints, TrackerKind::Hint);
    assert(crate::tracker_strip::trackers_of(html) == Seq::<(usize, usize)>::empty());
    crate::ranges::nothing_cut(encode_utf8(html));
    vstd::utf8::encode_utf8_decode_utf8(html);
    if !holds(html, "href=\"http://"@) && !holds(html, "href=\"https://"@) && !holds(
        html,
        "action=\"http://"@,
    ) && !holds(html, "action=\"https://"@) {
        pages_without_addresses_stay(html);
    }
}

/// A page in which no attribute with a web address begins has no address to clean.
pub proof fn pages_without_addresses_stay(html: Seq<char>)
    requires
        !holds(html, "href=\"http://"@),
        !holds(html, "href=\"https://"@),
        !holds(html, "action=\"http://"@),
        !holds(html, "action=\"https://"@),
    ensures
        crate::tracker_strip::rewritten(html) == html,
{
    reveal_with_fuel(crate::tracker_strip::first_address, 5);
    nothing_found(html, "href=\"http://"@);
    nothing_found(html, "href=\"https://"@);
    nothing_found(html, "action=\"http://"@);
    nothing_found(html, "action=\"https://"@);
    assert(crate::tracker_strip::address_in(html) is None);
}

proof fn nothing_found(html: Seq<char>, opening: Seq<char>)
    requires
        !holds(html, opening),
    ensures
        crate::text::next_occurrence(html, opening, 0) is None,
{
    crate::laws::text::standing_somewhere(html, opening);
    crate::text::occurrence_is_sound(html, opening, 0);
}

/// Byte `k` of the text lies where `part` stands in it.
pub open spec fn lies_in(html: Seq<char>, part: Seq<char>, k: int) -> bool {
    exists|front: Seq<char>, back: Seq<char>|
        html == #[trigger] (front + part + back) && encode_utf8(front).len() <= k < encode_utf8(
            front + part,
        ).len()
}

/// Byte `k` of the page lies in the HTML of one of its trackers.
pub open spec fn is_cut(html: Seq<char>, k: int) -> bool {
    exists|element: ElementModel| #[trigger]
        goes(html, element) && lies_in(html, element.outer_html, k)
}

proof fn cut_if_covered(html: Seq<char>, k: int)
    requires
        encode_utf8(html).len() <= usize::MAX,
    ensures
        crate::ranges::covered(crate::tracker_strip::trackers_of(html), k) <==> is_cut(html, k),
{
    let places = crate::tracker_strip::trackers_of(html);
    let scripts = crate::page::selected(html, "script"@);
    let images = crate::page::selected(html, "img"@);
    let hints = crate::page::selected(html, "link[rel='preconnect'], link[rel='dns-prefetch']"@);
    if crate::ranges::covered(places, k) {
        let i = choose|i: int|
            0 <= i < places.len() && (#[trigger] places[i]).0 <= k && k < places[i].1;
        let place = places[i];
        assert(places.contains(place));
        crate::tracker_strip::trackers_and_nothing_else_are_cut(
            html,
            scripts,
            images,
            hints,
            place,
        );
        let element = choose|element: ElementModel| #[trigger]
            crate::tracker_strip::is_tracker_among(element, scripts, images, hints)
                && element.outer_html.len() > 0 && crate::tracker_strip::is_place_of(
                html,
                element,
                place,
            );
        goes_if_tracker(html, element);
        let outer = element.outer_html;
        let at = choose|at: int| #[trigger]
            crate::text::occurs_at(html, outer, at) && place == crate::tracker_strip::place_at(
                html,
                outer,
                at,
            );
        let front = html.take(at);
        let back = html.skip(at + outer.len());
        assert(html == front + outer + back);
        assert(front + outer == html.take(at + outer.len()));
        crate::text::bytes_grow(html, at, html.len() as int);
        crate::text::bytes_grow(html, at + outer.len(), html.len() as int);
        assert(html.take(html.len() as int) == html);
        assert(lies_in(html, outer, k));
    }
    if is_cut(html, k) {
        let element = choose|element: ElementModel| #[trigger]
            goes(html, element) && lies_in(html, element.outer_html, k);
        let outer = element.outer_html;
        let (front, back) = choose|front: Seq<char>, back: Seq<char>|
            html == #[trigger] (front + outer + back) && encode_utf8(front).len() <= k
                < encode_utf8(front + outer).len();
        let at = front.len() as int;
        assert(html.subrange(at, at + outer.len()) == outer);
        assert(crate::text::occurs_at(html, outer, at));
        assert(html.take(at) == front);
        assert(html.take(at + outer.len()) == front + outer);
        if outer.len() == 0 {
            assert(front + outer == front);
        }
        crate::text::bytes_grow(html, at, html.len() as int);
        crate::text::bytes_grow(html, at + outer.len(), html.len() as int);
        assert(html.take(html.len() as int) == html);
        let place = crate::tracker_strip::place_at(html, outer, at);
        assert(crate::tracker_strip::is_place_of(html, element, place));
        goes_if_tracker(html, element);
        crate::tracker_strip::trackers_and_nothing_else_are_cut(
            html,
            scripts,
            images,
            hints,
            place,
        );
        let i = choose|i: int| 0 <= i < places.len() && places[i] == place;
        assert(places[i].0 <= k && k < places[i].1);
    }
}

/// The positions from nought up to `n`.
pub open spec fn positions(n: int) -> Seq<int> {
    Seq::new(n as nat, |k: int| k)
}

proof fn bytes_outside(
    bytes: Seq<u8>,
    ranges: Seq<(usize, usize)>,
    n: int,
    stays: spec_fn(int) -> bool,
)
    requires
        0 <= n <= bytes.len(),
        forall|k: int| #[trigger] stays(k) <==> !crate::ranges::covered(ranges, k),
    ensures
        crate::ranges::outside(bytes, ranges, n) == positions(n).filter(stays).map_values(
            |k: int| bytes[k],
        ),
    decreases n,
{
    reveal(Seq::filter);
    if n > 0 {
        bytes_outside(bytes, ranges, n - 1, stays);
        assert(positions(n).drop_last() == positions(n - 1));
        assert(positions(n).last() == n - 1);
        assert(stays(n - 1) <==> !crate::ranges::covered(ranges, n - 1));
    } else {
        assert(positions(0) == Seq::<int>::empty());
    }
}

/// Stripping a page takes away the bytes that lie in the HTML of a tracker, all of them and
/// no others, and cleans the addresses in what is left.
pub proof fn trackers_go_and_the_rest_stays(html: Seq<char>)
    requires
        encode_utf8(html).len() <= usize::MAX,
    ensures
        crate::tracker_strip::stripped(html) == crate::tracker_strip::rewritten(
            decode_utf8(
                positions(encode_utf8(html).len() as int).filter(
                    |k: int| !is_cut(html, k),
                ).map_values(|k: int| encode_utf8(html)[k]),
            ),
        ),
{
    let bytes = encode_utf8(html);
    let places = crate::tracker_strip::trackers_of(html);
    let stays = |k: int| !is_cut(html, k);
    assert forall|k: int| #[trigger] stays(k) <==> !crate::ranges::covered(places, k) by {
        cut_if_covered(html, k);
    }
    bytes_outside(bytes, places, bytes.len() as int, stays);
    assert(positions(bytes.len() as int).filter(stays).map_values(|k: int| bytes[k])
        =~= positions(encode_utf8(html).len() as int).filter(
        |k: int| !is_cut(html, k),
    ).map_values(|k: int| encode_utf8(html)[k]));
}

/// What is left outside ranges are the bytes that no range covers, in their order.
pub proof fn cutting_leaves_the_rest(bytes: Seq<u8>, ranges: Seq<(usize, usize)>)
    ensures
        crate::ranges::outside(bytes, ranges, bytes.len() as int) == positions(
            bytes.len() as int,
        ).filter(
            |k: int|
                !(exists|i: int|
                    0 <= i < ranges.len() && (#[trigger] ranges[i]).0 <= k && k < ranges[i].1),
        ).map_values(|k: int| bytes[k]),
{
    let stays = |k: int|
        !(exists|i: int|
            0 <= i < ranges.len() && (#[trigger] ranges[i]).0 <= k && k < ranges[i].1);
    bytes_outside(bytes, ranges, bytes.len() as int, stays);
}

/// One of the four ways in which an attribute with a web address begins stands in the page
/// behind `n` characters.
pub open spec fn opens(html: Seq<char>, n: int) -> bool {
    ||| holds_behind(html, "href=\"http://"@, n)
    ||| holds_behind(html, "href=\"https://"@, n)
    ||| holds_behind(html, "action=\"http://"@, n)
    ||| holds_behind(html, "action=\"https://"@, n)
}

proof fn opening_is_found(html: Seq<char>, opening: Seq<char>, n: int)
    requires
        0 <= n,
        opening == "href=\"http://"@ || opening == "href=\"https://"@ || opening
            == "action=\"http://"@ || opening == "action=\"https://"@,
        forall|at: int| 0 <= at < n ==> !#[trigger] opens(html, at),
    ensures
        crate::text::next_occurrence(html, opening, 0) matches Some(at) ==> at >= n
            && holds_behind(html, opening, at),
        holds_behind(html, opening, n) ==> crate::text::next_occurrence(html, opening, 0) == Some(
            n,
        ),
{
    crate::laws::text::first_place_is_first(html, opening, 0);
    if let Some(at) = crate::text::next_occurrence(html, opening, 0) {
        if at < n {
            assert(!opens(html, at));
        }
    }
}

proof fn one_opening(html: Seq<char>, n: int)
    ensures
        holds_behind(html, "href=\"http://"@, n) ==> !holds_behind(html, "href=\"https://"@, n)
            && !holds_behind(html, "action=\"http://"@, n) && !holds_behind(
            html,
            "action=\"https://"@,
            n,
        ),
        holds_behind(html, "href=\"https://"@, n) ==> !holds_behind(html, "action=\"http://"@, n)
            && !holds_behind(html, "action=\"https://"@, n),
        holds_behind(html, "action=\"http://"@, n) ==> !holds_behind(
            html,
            "action=\"https://"@,
            n,
        ),
{
    reveal_strlit("href=\"http://");
    reveal_strlit("href=\"https://");
    reveal_strlit("action=\"http://");
    reveal_strlit("action=\"https://");
    char_behind(html, "href=\"http://"@, n);
    char_behind(html, "href=\"https://"@, n);
    char_behind(html, "action=\"http://"@, n);
    char_behind(html, "action=\"https://"@, n);
    assert("href=\"http://"@[0] == 'h' && "href=\"http://"@[10] == ':');
    assert("href=\"https://"@[0] == 'h' && "href=\"https://"@[10] == 's');
    assert("action=\"http://"@[0] == 'a' && "action=\"http://"@[12] == ':');
    assert("action=\"https://"@[0] == 'a' && "action=\"https://"@[12] == 's');
}

proof fn char_behind(html: Seq<char>, part: Seq<char>, n: int)
    ensures
        holds_behind(html, part, n) ==> n >= 0 && forall|i: int|
            0 <= i < part.len() ==> html[n + i] == #[trigger] part[i],
{
    if holds_behind(html, part, n) {
        let (front, back) = choose|front: Seq<char>, back: Seq<char>|
            front.len() == n && html == #[trigger] (front + part + back);
    }
}

/// The first address in a page is cleaned, what comes before it stays as it is, and so on
/// behind it: where `name` is `href="` or `action="`, the address behind it begins with
/// `http://` or `https://` and goes up to the next quote, and no other attribute with an
/// address begins in front.
pub proof fn addresses_are_cleaned_one_by_one(
    front: Seq<char>,
    name: Seq<char>,
    address: Seq<char>,
    rest: Seq<char>,
)
    requires
        name == "href=\""@ || name == "action=\""@,
        starts(address, "http://"@) || starts(address, "https://"@),
        forall|i: int| 0 <= i < address.len() ==> #[trigger] address[i] != '"',
        forall|at: int|
            0 <= at < front.len() ==> !#[trigger] opens(
                front + name + address + seq!['"'] + rest,
                at,
            ),
    ensures
        crate::tracker_strip::rewritten(front + name + address + seq!['"'] + rest) == front + name
            + crate::tracker_strip::cleaned_in_page(address) + crate::tracker_strip::rewritten(
            seq!['"'] + rest,
        ),
{
    let html = front + name + address + seq!['"'] + rest;
    let n = front.len() as int;
    let start = n + name.len();
    let end = start + address.len();
    address_begins(front, name, address, rest);
    quote_is_next(front + name, address, rest);
    first_address_is(html, n, name.len() as int, end);
    assert(html.take(start) == front + name);
    assert(html.subrange(start, end) == address);
    assert(html.skip(end) == seq!['"'] + rest);
}

proof fn address_begins(
    front: Seq<char>,
    name: Seq<char>,
    address: Seq<char>,
    rest: Seq<char>,
)
    requires
        name == "href=\""@ || name == "action=\""@,
        starts(address, "http://"@) || starts(address, "https://"@),
    ensures
        name.len() == if name == "href=\""@ {
            6int
        } else {
            8
        },
        name.len() == 6 ==> holds_behind(
            front + name + address + seq!['"'] + rest,
            "href=\"http://"@,
            front.len() as int,
        ) || holds_behind(
            front + name + address + seq!['"'] + rest,
            "href=\"https://"@,
            front.len() as int,
        ),
        name.len() == 8 ==> holds_behind(
            front + name + address + seq!['"'] + rest,
            "action=\"http://"@,
            front.len() as int,
        ) || holds_behind(
            front + name + address + seq!['"'] + rest,
            "action=\"https://"@,
            front.len() as int,
        ),
{
    reveal_strlit("href=\"");
    reveal_strlit("action=\"");
    reveal_strlit("http://");
    reveal_strlit("https://");
    reveal_strlit("href=\"http://");
    reveal_strlit("href=\"https://");
    reveal_strlit("action=\"http://");
    reveal_strlit("action=\"https://");
    assert("href=\""@ + "http://"@ =~= "href=\"http://"@);
    assert("href=\""@ + "https://"@ =~= "href=\"https://"@);
    assert("action=\""@ + "http://"@ =~= "action=\"http://"@);
    assert("action=\""@ + "https://"@ =~= "action=\"https://"@);
    let html = front + name + address + seq!['"'] + rest;
    let scheme = if starts(address, "http://"@) {
        "http://"@
    } else {
        "https://"@
    };
    let tail = choose|tail: Seq<char>| address == #[trigger] (scheme + tail);
    assert(html == front + (name + scheme) + (tail + seq!['"'] + rest));
    assert(holds_behind(html, name + scheme, front.len() as int));
}

proof fn quote_is_next(front: Seq<char>, address: Seq<char>, rest: Seq<char>)
    requires
        forall|i: int| 0 <= i < address.len() ==> #[trigger] address[i] != '"',
    ensures
        crate::text::next_at(front + address + seq!['"'] + rest, '"', front.len() as int)
            == front.len() + address.len(),
{
    let html = front + address + seq!['"'] + rest;
    let start = front.len() as int;
    let end = start + address.len();
    crate::laws::text::first_place_of_a_char(html, '"', start);
    let quote = crate::text::next_at(html, '"', start);
    assert(html[end] == '"');
    if quote > end {
        assert(html[end] != '"');
    }
    if quote < end {
        assert(html[quote] == address[quote - start]);
    }
}

proof fn first_address_is(html: Seq<char>, n: int, lead: int, end: int)
    requires
        0 <= n,
        forall|at: int| 0 <= at < n ==> !#[trigger] opens(html, at),
        lead == 6 || lead == 8,
        lead == 6 ==> holds_behind(html, "href=\"http://"@, n) || holds_behind(
            html,
            "href=\"https://"@,
            n,
        ),
        lead == 8 ==> holds_behind(html, "action=\"http://"@, n) || holds_behind(
            html,
            "action=\"https://"@,
            n,
        ),
        crate::text::next_at(html, '"', n + lead) == end,
        end < html.len(),
    ensures
        crate::tracker_strip::address_in(html) == Some((n, n + lead, end)),
{
    one_opening(html, n);
    opening_is_found(html, "href=\"http://"@, n);
    opening_is_found(html, "href=\"https://"@, n);
    opening_is_found(html, "action=\"http://"@, n);
    opening_is_found(html, "action=\"https://"@, n);
    let a = crate::tracker_strip::address_after(html, "href=\"https://"@, 6);
    let b = crate::tracker_strip::address_after(html, "href=\"http://"@, 6);
    let c = crate::tracker_strip::address_after(html, "action=\"https://"@, 8);
    let d = crate::tracker_strip::address_after(html, "action=\"http://"@, 8);
    reveal_with_fuel(crate::tracker_strip::first_address, 5);
    let none: Option<(int, int, int)> = None;
    let x = crate::tracker_strip::earlier(none, a);
    let y = crate::tracker_strip::earlier(x, b);
    let z = crate::tracker_strip::earlier(y, c);
    assert(crate::tracker_strip::address_in(html) == crate::tracker_strip::earlier(z, d));
}

/// An attribute with an address that no quote closes is left alone: where no quote follows
/// any such beginning, the page stays as it is.
pub proof fn unclosed_addresses_stay(html: Seq<char>)
    requires
        forall|at: int, i: int|
            #[trigger] opens(html, at) && at + 8 <= i < html.len() ==> #[trigger] html[i] != '"',
    ensures
        crate::tracker_strip::rewritten(html) == html,
{
    reveal_strlit("href=\"http://");
    reveal_strlit("href=\"https://");
    reveal_strlit("action=\"http://");
    reveal_strlit("action=\"https://");
    reveal_with_fuel(crate::tracker_strip::first_address, 5);
    unclosed(html, "href=\"http://"@, 6);
    unclosed(html, "href=\"https://"@, 6);
    unclosed(html, "action=\"http://"@, 8);
    unclosed(html, "action=\"https://"@, 8);
    assert(crate::tracker_strip::address_in(html) is None);
}

proof fn unclosed(html: Seq<char>, opening: Seq<char>, lead: int)
    requires
        forall|at: int, i: int|
            #[trigger] opens(html, at) && at + 8 <= i < html.len() ==> #[trigger] html[i] != '"',
        0 < lead <= 8 < opening.len(),
        forall|i: int| lead <= i < 8 ==> #[trigger] opening[i] != '"',
        forall|at: int| holds_behind(html, opening, at) ==> #[trigger] opens(html, at),
    ensures
        crate::tracker_strip::address_after(html, opening, lead) is None,
{
    crate::laws::text::first_place_is_first(html, opening, 0);
    if let Some(at) = crate::text::next_occurrence(html, opening, 0) {
        char_behind(html, opening, at);
        assert(opens(html, at));
        let (front, back) = choose|front: Seq<char>, back: Seq<char>|
            front.len() == at && html == #[trigger] (front + opening + back);
        crate::laws::text::first_place_of_a_char(html, '"', at + lead);
        let end = crate::text::next_at(html, '"', at + lead);
        if end < html.len() {
            if end < at + 8 {
                assert(html[at + (end - at)] == opening[end - at]);
            }
        }
    }
}

/// A text that is no URL is left as it is. A URL keeps all but its query, which is written
/// anew from the pairs that are kept, or goes if none is kept.
pub proof fn only_the_query_is_cleaned(raw: Seq<char>)
    ensures
        crate::web::url_query_pairs(raw) is None ==> crate::tracker_strip::cleaned(raw) == raw,
        crate::web::url_query_pairs(raw) matches Some(pairs) ==> ({
            let kept = crate::tracker_strip::kept_pairs(pairs);
            let query = if kept == Seq::<PairModel>::empty() {
                None
            } else {
                Some(crate::query::query_text(kept))
            };
            crate::web::url_with_query(raw, query) matches Some(text)
                ==> crate::tracker_strip::cleaned(raw) == text
        }),
{
    if let Some(pairs) = crate::web::url_query_pairs(raw) {
        if crate::tracker_strip::kept_pairs(pairs).len() == 0 {
            assert(crate::tracker_strip::kept_pairs(pairs) =~= Seq::<PairModel>::empty());
        }
    }
}

/// A character that is written as it stands in the name or the value of a pair.
pub open spec fn plain_in_query(c: char) -> bool {
    c != '%' && c != '&' && c != '+' && c != '=' && c != '\t' && c != '\n' && c != '\r'
}

proof fn plain_text_is_written_plainly(text: Seq<char>, in_name: bool)
    requires
        forall|i: int| 0 <= i < text.len() ==> plain_in_query(#[trigger] text[i]),
    ensures
        crate::query::escaped(text, in_name) == text,
    decreases text.len(),
{
    if text.len() > 0 {
        assert(plain_in_query(text[0]));
        assert forall|i: int| 0 <= i < text.drop_first().len() implies plain_in_query(
            #[trigger] text.drop_first()[i],
        ) by {
            assert(plain_in_query(text[i + 1]));
        }
        plain_text_is_written_plainly(text.drop_first(), in_name);
        assert(seq![text[0]] + text.drop_first() == text);
    }
}

/// A query is written pair by pair with `&` between them, each as its name, `=` and its
/// value; names and values without special characters are written as they are. Read again,
/// it gives the same pairs, whatever they hold.
pub proof fn queries_are_written_plainly(pairs: Seq<PairModel>, last: PairModel)
    ensures
        crate::query::read_query(crate::query::query_text(pairs)) == pairs,
        pairs.len() > 0 ==> crate::query::query_text(pairs.push(last)) == crate::query::query_text(
            pairs,
        ) + "&"@ + crate::query::query_text(seq![last]),
        (forall|i: int| 0 <= i < last.0.len() ==> plain_in_query(#[trigger] last.0[i])) && (forall|
            i: int,
        |
            0 <= i < last.1.len() ==> plain_in_query(#[trigger] last.1[i]))
            ==> crate::query::query_text(seq![last]) == last.0 + "="@ + last.1,
{
    crate::query::queries_are_read_back(pairs);
    let one = seq![last];
    assert(one.last() == last);
    assert(pairs.push(last).drop_last() == pairs);
    assert(pairs.push(last).last() == last);
    if (forall|i: int| 0 <= i < last.0.len() ==> plain_in_query(#[trigger] last.0[i])) && (forall|
        i: int,
    |
        0 <= i < last.1.len() ==> plain_in_query(#[trigger] last.1[i])) {
        plain_text_is_written_plainly(last.0, true);
        plain_text_is_written_plainly(last.1, false);
    }
}

proof fn room_is_bounded(query: Seq<u8>)
    ensures
        crate::web::query_room(query) <= 3 * query.len(),
    decreases query.len(),
{
    if query.len() > 0 {
        room_is_bounded(query.drop_last());
    }
}

/// Addresses are cleaned however long they are, up to the 32 bits in which positions are
/// counted, and in pages as long as they do not become more than 128 times as long.
pub proof fn long_addresses_are_cleaned(raw: Seq<char>)
    requires
        crate::web::url_text(raw) is Some && crate::web::url_query_pairs(raw) is Some
            ==> encode_utf8(crate::web::url_text(raw)->0).len() + 3 * encode_utf8(
            crate::query::query_text(
                crate::tracker_strip::kept_pairs(crate::web::url_query_pairs(raw)->0),
            ),
        ).len() < 0xffff_ffff,
    ensures
        crate::tracker_strip::cleanable(raw),
        crate::tracker_strip::cleaned_if_short(raw) == crate::tracker_strip::cleaned(raw),
        encode_utf8(crate::tracker_strip::cleaned(raw)).len() <= 128 * encode_utf8(raw).len()
            ==> crate::tracker_strip::cleaned_in_page(raw) == crate::tracker_strip::cleaned(raw),
        crate::tracker_strip::cleaned_in_page(raw) == crate::tracker_strip::cleaned(raw)
            || crate::tracker_strip::cleaned_in_page(raw) == raw,
{
    if let (Some(text), Some(pairs)) = (
        crate::web::url_text(raw),
        crate::web::url_query_pairs(raw),
    ) {
        room_is_bounded(
            encode_utf8(crate::query::query_text(crate::tracker_strip::kept_pairs(pairs))),
        );
    }
}

/// Where the HTML of an element stands, in bytes: everywhere in the page that it stands, and
/// nowhere else.
pub proof fn places_are_where_it_stands(html: Seq<char>, outer: Seq<char>, k: int)
    requires
        encode_utf8(html).len() <= usize::MAX,
        outer.len() > 0,
    ensures
        crate::ranges::covered(crate::tracker_strip::places_from(html, outer, 0), k) <==> lies_in(
            html,
            outer,
            k,
        ),
{
    let places = crate::tracker_strip::places_from(html, outer, 0);
    assert(html.take(html.len() as int) == html);
    if crate::ranges::covered(places, k) {
        let i = choose|i: int|
            0 <= i < places.len() && (#[trigger] places[i]).0 <= k && k < places[i].1;
        let place = places[i];
        assert(places.contains(place));
        crate::tracker_strip::places_are_occurrences(html, outer, 0, place);
        let at = choose|at: int|
            0 <= at && #[trigger] crate::text::occurs_at(html, outer, at) && place
                == crate::tracker_strip::place_at(html, outer, at);
        let front = html.take(at);
        assert(html == front + outer + html.skip(at + outer.len()));
        assert(front + outer == html.take(at + outer.len()));
        crate::text::bytes_grow(html, at, html.len() as int);
        crate::text::bytes_grow(html, at + outer.len(), html.len() as int);
    }
    if lies_in(html, outer, k) {
        let (front, back) = choose|front: Seq<char>, back: Seq<char>|
            html == #[trigger] (front + outer + back) && encode_utf8(front).len() <= k
                < encode_utf8(front + outer).len();
        let at = front.len() as int;
        assert(html.subrange(at, at + outer.len()) == outer);
        assert(crate::text::occurs_at(html, outer, at));
        assert(html.take(at) == front);
        assert(html.take(at + outer.len()) == front + outer);
        crate::text::bytes_grow(html, at, html.len() as int);
        crate::text::bytes_grow(html, at + outer.len(), html.len() as int);
        let place = crate::tracker_strip::place_at(html, outer, at);
        crate::tracker_strip::places_are_occurrences(html, outer, 0, place);
        let i = choose|i: int| 0 <= i < places.len() && places[i] == place;
        assert(places[i].0 <= k && k < places[i].1);
    }
}

/// `place` is where `outer` stands in the page behind `front`, in bytes, and it stands
/// nowhere before that.
pub open spec fn stands_first(
    html: Seq<char>,
    front: Seq<char>,
    outer: Seq<char>,
    place: (usize, usize),
) -> bool {
    &&& starts(html, front + outer)
    &&& place.0 == encode_utf8(front).len()
    &&& place.1 == encode_utf8(front + outer).len()
    &&& forall|at: int| 0 <= at < front.len() ==> !#[trigger] holds_behind(html, outer, at)
}

/// The first place of an element's HTML is where it stands first; there is none exactly
/// where it does not stand at all.
pub proof fn first_place_of_an_element(html: Seq<char>, outer: Seq<char>)
    requires
        encode_utf8(html).len() <= usize::MAX,
    ensures
        crate::tracker_strip::first_place(html, outer) is None <==> !holds(html, outer),
        crate::tracker_strip::first_place(html, outer) is Some ==> exists|front: Seq<char>|
            #[trigger]
            stands_first(
                html,
                front,
                outer,
                crate::tracker_strip::first_place(html, outer)->0,
            ),
{
    crate::laws::text::first_place_is_first(html, outer, 0);
    crate::laws::text::standing_somewhere(html, outer);
    assert(html.take(html.len() as int) == html);
    match crate::text::next_occurrence(html, outer, 0) {
        Some(at) => {
            crate::laws::text::standing_at(html, outer, at);
            let front = html.take(at);
            let back = html.skip(at + outer.len());
            assert(html == (front + outer) + back);
            assert(front + outer == html.take(at + outer.len()));
            crate::text::bytes_grow(html, at, html.len() as int);
            crate::text::bytes_grow(html, at + outer.len(), html.len() as int);
            let place = crate::tracker_strip::place_at(html, outer, at);
            assert(stands_first(html, front, outer, place));
            let found = crate::tracker_strip::first_place(html, outer);
            assert(found == Some(place));
            assert(stands_first(html, front, outer, found->0));
        },
        None => {
            if crate::text::occurs(html, outer) {
                let at = choose|at: int| crate::text::occurs_at(html, outer, at);
                crate::laws::text::standing_at(html, outer, at);
                assert(!holds_behind(html, outer, at));
            }
            assert(!holds(html, outer));
            assert(crate::tracker_strip::first_place(html, outer) is None);
        },
    }
}

/// The first attribute with an address, in bytes: where its value starts, which is where the
/// address starts, and where the address ends.
pub proof fn address_bytes_are_bytes(html: Seq<char>)
    ensures
        match (
            crate::tracker_strip::address_bytes(html),
            crate::tracker_strip::address_in(html),
        ) {
            (Some(bytes), Some(found)) => bytes.0 == encode_utf8(html.take(found.1)).len()
                && bytes.1 == bytes.0 && bytes.2 == encode_utf8(html.take(found.2)).len(),
            (None, None) => true,
            _ => false,
        },
{
}

} // verus!
