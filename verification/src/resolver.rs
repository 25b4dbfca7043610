//! From raw inputs to the set of targets.
//!
//! A TCP input may stand for several addresses, and each of them becomes a
//! target of its own. An HTTP input stands for exactly one URL. One input
//! that cannot be resolved or parsed refuses the whole run, before any target
//! exists.
//!
//! Looking a host name up is the caller's work. The library takes what the
//! lookups came to, parses the URLs, and builds the set.

use vstd::prelude::*;
use crate::address::SocketAddress;
use crate::http_url::{url_parse, HttpUrl};
use crate::seq_facts::{
    lemma_filter_drops_all, lemma_filter_keeps_all, lemma_flatten_keeps_multiset,
    lemma_map_keeps_multiset,
};
use crate::target::{http_part, tcp_part, views, ProbeSet, ProbeTarget, TargetView};

verus! {

/// An input that refuses the run.
#[derive(Clone, Copy, Debug, PartialEq, Eq, Structural)]
pub enum InputError {
    /// The TCP input at this position did not resolve to socket addresses.
    UnresolvedAddress { index: usize },
    /// The HTTP input at this position is not an absolute URL.
    MalformedUrl { index: usize },
}

/// Every item is there.
pub open spec fn complete<T>(items: Seq<Option<T>>) -> bool {
    forall|i: int| 0 <= i < items.len() ==> (#[trigger] items[i]) is Some
}

/// `index` is the position of the first item that is missing.
pub open spec fn first_missing<T>(items: Seq<Option<T>>, index: int) -> bool {
    &&& 0 <= index < items.len()
    &&& items[index] is None
    &&& forall|j: int| 0 <= j < index ==> (#[trigger] items[j]) is Some
}

/// The items themselves, where every one is there.
pub open spec fn present<T>(items: Seq<Option<T>>) -> Seq<T> {
    items.map_values(|item: Option<T>| item->0)
}

/// The targets that the resolved TCP inputs give: every address of every
/// input, input by input.
pub open spec fn tcp_entries(addresses: Seq<Seq<SocketAddress>>) -> Seq<TargetView> {
    addresses.flatten().map_values(|address: SocketAddress| TargetView::Tcp(address))
}

/// The targets that the parsed HTTP inputs give: one for each.
pub open spec fn http_entries(urls: Seq<Seq<char>>) -> Seq<TargetView> {
    urls.map_values(|url: Seq<char>| TargetView::Http(url))
}

/// What resolving comes to, given for each TCP input the addresses it
/// resolved to and for each HTTP input the URL it parsed to (`None` where
/// that failed). The first TCP input that failed refuses the run; else the
/// first HTTP input that failed; else the targets are those of the TCP
/// inputs followed by those of the HTTP inputs.
pub open spec fn resolves_to(
    tcp: Seq<Option<Seq<SocketAddress>>>,
    http: Seq<Option<Seq<char>>>,
    result: Result<Seq<TargetView>, InputError>,
) -> bool {
    match result {
        Ok(targets) => {
            &&& complete(tcp)
            &&& complete(http)
            &&& targets == tcp_entries(present(tcp)) + http_entries(present(http))
        },
        Err(InputError::UnresolvedAddress { index }) => first_missing(tcp, index as int),
        Err(InputError::MalformedUrl { index }) => {
            &&& complete(tcp)
            &&& first_missing(http, index as int)
        },
    }
}

/// The result of resolving as contracts see it.
pub open spec fn result_view(result: Result<ProbeSet, InputError>) -> Result<
    Seq<TargetView>,
    InputError,
> {
    match result {
        Ok(set) => Ok(set@),
        Err(error) => Err(error),
    }
}

/// The lookups as contracts see them.
pub open spec fn lookup_views(lookups: Seq<Option<Vec<SocketAddress>>>) -> Seq<
    Option<Seq<SocketAddress>>,
> {
    lookups.map_values(
        |lookup: Option<Vec<SocketAddress>>|
            match lookup {
                Some(addresses) => Some(addresses@),
                None => None,
            },
    )
}

/// The parsed URLs as contracts see them.
pub open spec fn url_views(urls: Seq<Option<HttpUrl>>) -> Seq<Option<Seq<char>>> {
    urls.map_values(
        |url: Option<HttpUrl>|
            match url {
                Some(u) => Some(u@),
                None => None,
            },
    )
}

/// What each of `inputs` parses to.
pub open spec fn parsed(inputs: Seq<String>) -> Seq<Option<Seq<char>>> {
    inputs.map_values(|input: String| url_parse(input@))
}

/// The targets of the TCP inputs, or the position of the first one that did
/// not resolve.
fn tcp_targets(lookups: &Vec<Option<Vec<SocketAddress>>>) -> (result: Result<
    Vec<ProbeTarget>,
    usize,
>)
    ensures
        match result {
            Ok(targets) => {
                &&& complete(lookup_views(lookups@))
                &&& views(targets@) == tcp_entries(present(lookup_views(lookups@)))
            },
            Err(index) => first_missing(lookup_views(lookups@), index as int),
        },
{
    let ghost tcp = lookup_views(lookups@);
    let mut targets: Vec<ProbeTarget> = Vec::new();
    let mut i: usize = 0;
    assert(present(tcp).take(0) =~= Seq::<Seq<SocketAddress>>::empty());
    assert(views(targets@) =~= tcp_entries(present(tcp).take(0)));
    while i < lookups.len()
        invariant
            i <= lookups.len(),
            tcp == lookup_views(lookups@),
            forall|j: int| 0 <= j < i ==> (#[trigger] tcp[j]) is Some,
            views(targets@) == tcp_entries(present(tcp).take(i as int)),
        decreases lookups.len() - i,
    {
        match &lookups[i] {
            None => {
                return Err(i);
            },
            Some(addresses) => {
                let ghost before = views(targets@);
                let mut k: usize = 0;
                while k < addresses.len()
                    invariant
                        k <= addresses.len(),
                        views(targets@) == before + addresses@.take(k as int).map_values(
                            |address: SocketAddress| TargetView::Tcp(address),
                        ),
                    decreases addresses.len() - k,
                {
                    let ghost earlier = targets@;
                    targets.push(ProbeTarget::Tcp(addresses[k]));
                    proof {
                        let added = addresses@[k as int];
                        assert(views(targets@) =~= views(earlier).push(TargetView::Tcp(added)));
                        assert(addresses@.take(k + 1) =~= addresses@.take(k as int).push(added));
                    }
                    k += 1;
                }
                proof {
                    let done = present(tcp).take(i as int);
                    assert(addresses@.take(k as int) =~= addresses@);
                    assert(present(tcp).take(i + 1) =~= done.push(addresses@));
                    done.lemma_flatten_push(addresses@);
                }
            },
        }
        i += 1;
    }
    assert(present(tcp).take(i as int) =~= present(tcp));
    Ok(targets)
}

/// The targets of the HTTP inputs, or the position of the first one that did
/// not parse.
fn http_targets(urls: Vec<Option<HttpUrl>>) -> (result: Result<Vec<ProbeTarget>, usize>)
    ensures
        match result {
            Ok(targets) => {
                &&& complete(url_views(urls@))
                &&& views(targets@) == http_entries(present(url_views(urls@)))
            },
            Err(index) => first_missing(url_views(urls@), index as int),
        },
{
    let ghost http = url_views(urls@);
    let count: usize = urls.len();
    let mut targets: Vec<ProbeTarget> = Vec::new();
    let mut i: usize = 0;
    for url in it: urls
        invariant
            i == it.index(),
            it.seq() == urls@,
            urls@.len() == count,
            http == url_views(urls@),
            forall|j: int| 0 <= j < i ==> (#[trigger] http[j]) is Some,
            views(targets@) == http_entries(present(http).take(i as int)),
    {
        match url {
            None => {
                return Err(i);
            },
            Some(u) => {
                let ghost earlier = targets@;
                targets.push(ProbeTarget::Http(u));
                proof {
                    assert(views(targets@) =~= views(earlier).push(TargetView::Http(u@)));
                    assert(present(http).take(i + 1) =~= present(http).take(i as int).push(u@));
                }
            },
        }
        i += 1;
    }
    assert(present(http).take(i as int) =~= present(http));
    Ok(targets)
}

/// The set of the TCP targets followed by those of the HTTP inputs, or the
/// error of the first HTTP input that did not parse.
fn with_http_targets(tcp: Vec<ProbeTarget>, urls: Vec<Option<HttpUrl>>) -> (result: Result<
    ProbeSet,
    InputError,
>)
    ensures
        match result {
            Ok(set) => {
                &&& complete(url_views(urls@))
                &&& set@ == views(tcp@) + http_entries(present(url_views(urls@)))
            },
            Err(InputError::MalformedUrl { index }) => first_missing(
                url_views(urls@),
                index as int,
            ),
            Err(InputError::UnresolvedAddress { .. }) => false,
        },
{
    match http_targets(urls) {
        Ok(http) => {
            let mut targets = tcp;
            let mut rest = http;
            targets.append(&mut rest);
            assert(views(targets@) =~= views(tcp@) + views(http@));
            Ok(ProbeSet::new(targets))
        },
        Err(index) => Err(InputError::MalformedUrl { index }),
    }
}

/// Builds the set of targets from what the inputs came to: for each TCP
/// input the addresses it resolved to, for each HTTP input the URL it parsed
/// to, `None` where that failed.
///
/// Every address of every TCP input becomes a target, so an input that
/// resolved to an IPv4 and an IPv6 address is waited for twice.
pub fn assemble(lookups: Vec<Option<Vec<SocketAddress>>>, urls: Vec<Option<HttpUrl>>) -> (result:
    Result<ProbeSet, InputError>)
    ensures
        resolves_to(lookup_views(lookups@), url_views(urls@), result_view(result)),
{
    match tcp_targets(&lookups) {
        Ok(tcp) => with_http_targets(tcp, urls),
        Err(index) => Err(InputError::UnresolvedAddress { index }),
    }
}

/// Parses each of `inputs` as an absolute URL.
pub fn parse_urls(inputs: &Vec<String>) -> (urls: Vec<Option<HttpUrl>>)
    ensures
        url_views(urls@) == parsed(inputs@),
{
    let mut urls: Vec<Option<HttpUrl>> = Vec::new();
    let mut i: usize = 0;
    while i < inputs.len()
        invariant
            i <= inputs.len(),
            url_views(urls@) == parsed(inputs@).take(i as int),
        decreases inputs.len() - i,
    {
        let ghost earlier = urls@;
        let url = HttpUrl::parse(inputs[i].as_str());
        urls.push(url);
        proof {
            let added = url_parse(inputs@[i as int]@);
            assert(url_views(urls@) =~= url_views(earlier).push(added));
            assert(parsed(inputs@).take(i + 1) =~= parsed(inputs@).take(i as int).push(added));
        }
        i += 1;
    }
    assert(parsed(inputs@).take(i as int) =~= parsed(inputs@));
    urls
}

/// Resolves the inputs of one run into its set of targets: `lookups` holds
/// for each TCP input the addresses that it resolved to (`None` where it
/// could not be resolved), `inputs` the HTTP inputs as they were given.
///
/// The run is refused on the first TCP input that did not resolve, else on
/// the first HTTP input that is not an absolute URL. No URL is parsed once a
/// TCP input has failed.
pub fn resolve(lookups: Vec<Option<Vec<SocketAddress>>>, inputs: &Vec<String>) -> (result: Result<
    ProbeSet,
    InputError,
>)
    ensures
        resolves_to(lookup_views(lookups@), parsed(inputs@), result_view(result)),
{
    match tcp_targets(&lookups) {
        Ok(tcp) => with_http_targets(tcp, parse_urls(inputs)),
        Err(index) => Err(InputError::UnresolvedAddress { index }),
    }
}

/// The number of addresses that the TCP inputs resolved to, all told.
pub open spec fn address_total(addresses: Seq<Seq<SocketAddress>>) -> nat
    decreases addresses.len(),
{
    if addresses.len() == 0 {
        0
    } else {
        address_total(addresses.drop_last()) + addresses.last().len()
    }
}

proof fn lemma_flatten_len(addresses: Seq<Seq<SocketAddress>>)
    ensures
        addresses.flatten().len() == address_total(addresses),
    decreases addresses.len(),
{
    if addresses.len() > 0 {
        lemma_flatten_len(addresses.drop_last());
        addresses.drop_last().lemma_flatten_push(addresses.last());
        assert(addresses.drop_last().push(addresses.last()) =~= addresses);
    }
}

/// Two results of resolving the same inputs are the same result: the
/// targets, or the error, are fixed by what the inputs came to.
pub proof fn lemma_resolution_is_determined(
    tcp: Seq<Option<Seq<SocketAddress>>>,
    http: Seq<Option<Seq<char>>>,
    one: Result<Seq<TargetView>, InputError>,
    other: Result<Seq<TargetView>, InputError>,
)
    requires
        resolves_to(tcp, http, one),
        resolves_to(tcp, http, other),
    ensures
        one == other,
{
}

/// Resolving succeeds exactly when every TCP input resolved and every HTTP
/// input parsed. One input that did not refuses the run: no set of targets
/// comes to be, so nothing can be probed.
pub proof fn lemma_one_bad_input_refuses_the_run(
    tcp: Seq<Option<Seq<SocketAddress>>>,
    http: Seq<Option<Seq<char>>>,
    result: Result<Seq<TargetView>, InputError>,
)
    requires
        resolves_to(tcp, http, result),
    ensures
        result is Ok <==> complete(tcp) && complete(http),
{
}

/// Fan-out is preserved: the TCP targets of the set are the addresses that
/// the TCP inputs resolved to, each as often as it was found, so the set
/// holds as many TCP targets as there were addresses. An input that resolved
/// to an IPv4 and an IPv6 address counts twice.
pub proof fn lemma_tcp_fan_out_is_preserved(
    tcp: Seq<Option<Seq<SocketAddress>>>,
    http: Seq<Option<Seq<char>>>,
    targets: Seq<TargetView>,
)
    requires
        resolves_to(tcp, http, Ok(targets)),
    ensures
        tcp_part(targets) == tcp_entries(present(tcp)),
        tcp_part(targets).len() == address_total(present(tcp)),
{
    let from_tcp = tcp_entries(present(tcp));
    let from_http = http_entries(present(http));
    let is_tcp = |t: TargetView| t is Tcp;
    Seq::filter_distributes_over_add(from_tcp, from_http, is_tcp);
    lemma_filter_keeps_all(from_tcp, is_tcp);
    lemma_filter_drops_all(from_http, is_tcp);
    lemma_flatten_len(present(tcp));
}

/// The set holds exactly one HTTP target for each HTTP input: the URL that
/// the input parsed to.
pub proof fn lemma_one_http_target_per_input(
    tcp: Seq<Option<Seq<SocketAddress>>>,
    http: Seq<Option<Seq<char>>>,
    targets: Seq<TargetView>,
)
    requires
        resolves_to(tcp, http, Ok(targets)),
    ensures
        http_part(targets) == http_entries(present(http)),
        http_part(targets).len() == http.len(),
        forall|i: int|
            0 <= i < http.len() ==> #[trigger] http_part(targets)[i] == TargetView::Http(
                http[i]->0,
            ),
{
    let from_tcp = tcp_entries(present(tcp));
    let from_http = http_entries(present(http));
    let is_http = |t: TargetView| t is Http;
    Seq::filter_distributes_over_add(from_tcp, from_http, is_http);
    lemma_filter_drops_all(from_tcp, is_http);
    lemma_filter_keeps_all(from_http, is_http);
}

/// The order of the inputs does not matter: the same TCP inputs and the same
/// HTTP inputs, given in another order, lead to the same targets, each as
/// often as before.
pub proof fn lemma_targets_are_order_independent(
    tcp: Seq<Option<Seq<SocketAddress>>>,
    http: Seq<Option<Seq<char>>>,
    targets: Seq<TargetView>,
    tcp_reordered: Seq<Option<Seq<SocketAddress>>>,
    http_reordered: Seq<Option<Seq<char>>>,
    targets_reordered: Seq<TargetView>,
)
    requires
        resolves_to(tcp, http, Ok(targets)),
        resolves_to(tcp_reordered, http_reordered, Ok(targets_reordered)),
        tcp.to_multiset() == tcp_reordered.to_multiset(),
        http.to_multiset() == http_reordered.to_multiset(),
    ensures
        targets.to_multiset() == targets_reordered.to_multiset(),
{
    let as_tcp = |address: SocketAddress| TargetView::Tcp(address);
    let as_http = |url: Seq<char>| TargetView::Http(url);
    lemma_map_keeps_multiset(tcp, tcp_reordered, |item: Option<Seq<SocketAddress>>| item->0);
    lemma_flatten_keeps_multiset(present(tcp), present(tcp_reordered));
    lemma_map_keeps_multiset(present(tcp).flatten(), present(tcp_reordered).flatten(), as_tcp);
    lemma_map_keeps_multiset(http, http_reordered, |item: Option<Seq<char>>| item->0);
    lemma_map_keeps_multiset(present(http), present(http_reordered), as_http);
    vstd::seq_lib::lemma_multiset_commutative(
        tcp_entries(present(tcp)),
        http_entries(present(http)),
    );
    vstd::seq_lib::lemma_multiset_commutative(
        tcp_entries(present(tcp_reordered)),
        http_entries(present(http_reordered)),
    );
}

} // verus!
