//! The delivery of assets: routing a path to what is served for it, and
//! streaming content that is too long for one response.

use crate::config::{RedirectView, StorageConfig, StorageConfigRedirect, StorageConfigView};
use crate::error::{error_text, Error, ErrorView};
use crate::list::{
    bytes_of, find_first, first_place, has_place, starts_with, text_starts_with,
};
use crate::principal::{copy_bytes, same_bytes};
use crate::rules::{get_rule, rule_of, Permission, Rules, RulesType, RulesView};
use crate::storage::{
    asset_wf, assets_wf, join_blocks, Asset, AssetStore, AssetView, AssetsView, Encoding,
    EncodingView,
};
use crate::table::{copy_list, has_key, index_of_key, lookup, Duplicate};
use vstd::prelude::*;
use vstd::utf8::encode_utf8;

verus! {

/// The longest content that is delivered in one response, in bytes.
pub const MAX_INLINE_BODY: u64 = 2_000_000;

/// A header: its name and its value.
pub type HeaderField = (String, String);

/// A request for a path.
#[derive(Debug, Clone, PartialEq, Eq)]
pub struct HttpRequest {
    pub method: String,
    pub url: String,
    pub headers: Vec<HeaderField>,
    pub body: Vec<u8>,
    pub certificate_version: Option<u16>,
}

/// What a consumer presents to get the next chunk of a stream.
#[derive(Debug, Clone, PartialEq, Eq)]
pub struct StreamingCallbackToken {
    pub full_path: String,
    pub encoding_type: String,
    pub index: usize,
    pub sha256: Vec<u8>,
    pub headers: Vec<HeaderField>,
}

/// The model of a [`StreamingCallbackToken`].
pub struct TokenView {
    pub full_path: Seq<char>,
    pub encoding_type: Seq<char>,
    pub index: usize,
    pub sha256: Seq<u8>,
    pub headers: Seq<(Seq<char>, Seq<char>)>,
}

impl DeepView for StreamingCallbackToken {
    type V = TokenView;

    open spec fn deep_view(&self) -> TokenView {
        TokenView {
            full_path: self.full_path@,
            encoding_type: self.encoding_type@,
            index: self.index,
            sha256: self.sha256@,
            headers: self.headers.deep_view(),
        }
    }
}

/// A response: the status, the headers, the body, and, where the body is
/// only the beginning of the content, the token to go on with.
#[derive(Debug, Clone, PartialEq, Eq)]
pub struct HttpResponse {
    pub status_code: u16,
    pub headers: Vec<HeaderField>,
    pub body: Vec<u8>,
    pub streaming_token: Option<StreamingCallbackToken>,
}

/// The model of an [`HttpResponse`].
pub struct HttpResponseView {
    pub status_code: u16,
    pub headers: Seq<(Seq<char>, Seq<char>)>,
    pub body: Seq<u8>,
    pub streaming_token: Option<TokenView>,
}

impl DeepView for HttpResponse {
    type V = HttpResponseView;

    open spec fn deep_view(&self) -> HttpResponseView {
        HttpResponseView {
            status_code: self.status_code,
            headers: self.headers.deep_view(),
            body: self.body@,
            streaming_token: self.streaming_token.deep_view(),
        }
    }
}

/// One more chunk of a stream, and the token to go on with, if more is to
/// come.
#[derive(Debug, Clone, PartialEq, Eq)]
pub struct StreamingCallbackHttpResponse {
    pub body: Vec<u8>,
    pub token: Option<StreamingCallbackToken>,
}

/// The asset at the path asked for is served as it is.
#[derive(Debug, PartialEq, Eq)]
pub struct RoutingDefault<'a> {
    pub url: String,
    pub asset: &'a Asset,
}

/// Another asset is served under the path asked for.
#[derive(Debug, PartialEq, Eq)]
pub struct RoutingRewrite<'a> {
    pub url: String,
    pub asset: &'a Asset,
    pub source: String,
    pub status_code: u16,
}

/// The consumer is sent elsewhere.
#[derive(Debug, PartialEq, Eq)]
pub struct RoutingRedirect {
    pub url: String,
    pub redirect: StorageConfigRedirect,
    pub iframe: bool,
}

/// What a path resolves to.
#[derive(Debug, PartialEq, Eq)]
pub enum Routing<'a> {
    Default(RoutingDefault<'a>),
    Rewrite(RoutingRewrite<'a>),
    Redirect(RoutingRedirect),
}

/// The model of a [`Routing`].
pub enum RoutingView {
    Default { url: Seq<char>, asset: AssetView },
    Rewrite { url: Seq<char>, asset: AssetView, source: Seq<char>, status_code: u16 },
    Redirect { url: Seq<char>, redirect: RedirectView, iframe: bool },
}

impl<'a> DeepView for Routing<'a> {
    type V = RoutingView;

    open spec fn deep_view(&self) -> RoutingView {
        match self {
            Routing::Default(found) => RoutingView::Default {
                url: found.url@,
                asset: found.asset.deep_view(),
            },
            Routing::Rewrite(found) => RoutingView::Rewrite {
                url: found.url@,
                asset: found.asset.deep_view(),
                source: found.source@,
                status_code: found.status_code,
            },
            Routing::Redirect(found) => RoutingView::Redirect {
                url: found.url@,
                redirect: found.redirect.deep_view(),
                iframe: found.iframe,
            },
        }
    }
}

/// Entry `i` of the store is at `path`, in a collection that anyone may
/// read.
pub open spec fn serves(assets: AssetsView, rules: RulesView, i: int, path: Seq<char>) -> bool {
    0 <= i < assets.len() && assets[i].0.1 == path && rule_of(
        rules,
        RulesType::Storage,
        assets[i].0.0,
    ).read == Permission::Public
}

/// Entry `i` is the first that [`serves`] `path`.
pub open spec fn first_serving(
    assets: AssetsView,
    rules: RulesView,
    i: int,
    path: Seq<char>,
) -> bool {
    serves(assets, rules, i, path) && forall|j: int|
        0 <= j < i ==> !#[trigger] serves(assets, rules, j, path)
}

/// Some entry serves `path`.
pub open spec fn is_served(assets: AssetsView, rules: RulesView, path: Seq<char>) -> bool {
    exists|i: int| first_serving(assets, rules, i, path)
}

/// The first entry that serves `path`, where there is one.
pub open spec fn serving_place(assets: AssetsView, rules: RulesView, path: Seq<char>) -> int {
    choose|i: int| first_serving(assets, rules, i, path)
}

/// The asset that is delivered for `path`: the first in the store at this
/// path that anyone may read. An asset that not everyone may read is
/// passed over as if it were not there.
pub open spec fn public_asset(assets: AssetsView, rules: RulesView, path: Seq<char>) -> Option<
    AssetView,
> {
    if is_served(assets, rules, path) {
        Some(assets[serving_place(assets, rules, path)].1)
    } else {
        None
    }
}

/// Rewrite `i` exists and its source is the beginning of `path`.
pub open spec fn rewrite_applies(
    rewrites: Seq<(Seq<char>, Seq<char>)>,
    i: int,
    path: Seq<char>,
) -> bool {
    0 <= i < rewrites.len() && starts_with(encode_utf8(path), encode_utf8(rewrites[i].0))
}

/// The length of the source of rewrite `i`, in bytes.
pub open spec fn source_length(rewrites: Seq<(Seq<char>, Seq<char>)>, i: int) -> nat {
    encode_utf8(rewrites[i].0).len()
}

/// Rewrite `i` applies and no other that applies has a longer source, nor
/// one as long and an earlier place.
pub open spec fn best_rewrite(
    rewrites: Seq<(Seq<char>, Seq<char>)>,
    i: int,
    path: Seq<char>,
) -> bool {
    rewrite_applies(rewrites, i, path) && forall|j: int| #[trigger]
        rewrite_applies(rewrites, j, path) ==> source_length(rewrites, j) < source_length(
            rewrites,
            i,
        ) || (source_length(rewrites, j) == source_length(rewrites, i) && i <= j)
}

/// Some rewrite applies to `path`.
pub open spec fn has_rewrite(rewrites: Seq<(Seq<char>, Seq<char>)>, path: Seq<char>) -> bool {
    exists|i: int| best_rewrite(rewrites, i, path)
}

/// The rewrite that is applied to `path`, where there is one.
pub open spec fn rewrite_place(rewrites: Seq<(Seq<char>, Seq<char>)>, path: Seq<char>) -> int {
    choose|i: int| best_rewrite(rewrites, i, path)
}

/// Where `path` is rewritten to: the destination of the rewrite with the
/// longest source that `path` starts with.
pub open spec fn rewrite_target(rewrites: Seq<(Seq<char>, Seq<char>)>, path: Seq<char>) -> Option<
    Seq<char>,
> {
    if has_rewrite(rewrites, path) {
        Some(rewrites[rewrite_place(rewrites, path)].1)
    } else {
        None
    }
}

/// Where `path` is redirected to: the first redirect of this very path.
pub open spec fn redirect_for(redirects: Seq<(Seq<char>, RedirectView)>, path: Seq<char>) -> Option<
    RedirectView,
> {
    if has_place(redirects, path) {
        Some(redirects[first_place(redirects, path)].1)
    } else {
        None
    }
}

/// The asset at an optional path, with the path.
pub open spec fn public_asset_at(assets: AssetsView, rules: RulesView, path: Option<Seq<char>>)
    -> Option<(Seq<char>, AssetView)> {
    match path {
        Some(path) => match public_asset(assets, rules, path) {
            Some(asset) => Some((path, asset)),
            None => None,
        },
        None => None,
    }
}

/// What a path that matches no asset resolves to: a rewrite, else a
/// redirect, else the fallback for what is not found, else nothing.
pub open spec fn alternative(
    assets: AssetsView,
    rules: RulesView,
    config: StorageConfigView,
    url: Seq<char>,
) -> Result<RoutingView, ErrorView> {
    match public_asset_at(assets, rules, rewrite_target(config.rewrites, url)) {
        Some((source, asset)) => Ok(RoutingView::Rewrite { url, asset, source, status_code: 200 }),
        None => match redirect_for(config.redirects, url) {
            Some(redirect) => Ok(RoutingView::Redirect { url, redirect, iframe: config.iframe }),
            None => match public_asset_at(assets, rules, config.not_found) {
                Some((source, asset)) => Ok(
                    RoutingView::Rewrite { url, asset, source, status_code: 404 },
                ),
                None => Err(ErrorView::NotFound),
            },
        },
    }
}

/// What a path resolves to: the asset at this very path, or else, where
/// alternatives are asked for, what [`alternative`] gives.
pub open spec fn routing_outcome(
    assets: AssetsView,
    rules: RulesView,
    config: StorageConfigView,
    url: Seq<char>,
    include_alternative: bool,
) -> Result<RoutingView, ErrorView> {
    match public_asset(assets, rules, url) {
        Some(asset) => Ok(RoutingView::Default { url, asset }),
        None => if include_alternative {
            alternative(assets, rules, config, url)
        } else {
            Err(ErrorView::NotFound)
        },
    }
}

/// The token for the chunk behind chunk `index`, or `None` where that was
/// the last.
pub open spec fn next_token(
    full_path: Seq<char>,
    encoding_type: Seq<char>,
    headers: Seq<(Seq<char>, Seq<char>)>,
    encoding: EncodingView,
    index: int,
) -> Option<TokenView> {
    if index + 1 < encoding.content_chunks.len() && index + 1 <= usize::MAX {
        Some(
            TokenView {
                full_path,
                encoding_type,
                index: (index + 1) as usize,
                sha256: encoding.sha256,
                headers,
            },
        )
    } else {
        None
    }
}

/// What presenting a token returns: the chunk it asks for and the token
/// for the next, or the refusal. A token whose hash is not that of the
/// encoding stored now is refused.
pub open spec fn streaming_outcome(
    assets: AssetsView,
    rules: RulesView,
    token: TokenView,
) -> Result<(Seq<u8>, Option<TokenView>), ErrorView> {
    match public_asset(assets, rules, token.full_path) {
        None => Err(ErrorView::NotFound),
        Some(asset) => match lookup(asset.encodings, token.encoding_type) {
            None => Err(ErrorView::NotFound),
            Some(encoding) => if token.sha256 != encoding.sha256 {
                Err(ErrorView::IntegrityMismatch)
            } else if token.index >= encoding.content_chunks.len() {
                Err(ErrorView::NotFound)
            } else {
                Ok(
                    (
                        encoding.content_chunks[token.index as int],
                        next_token(
                            token.full_path,
                            token.encoding_type,
                            token.headers,
                            encoding,
                            token.index as int,
                        ),
                    ),
                )
            },
        },
    }
}

/// The encoding of an asset that is served, with its name: the one named
/// `identity`, or else the first.
pub open spec fn served_encoding(encodings: Seq<(Seq<char>, EncodingView)>) -> (
    Seq<char>,
    EncodingView,
) {
    if has_key(encodings, "identity"@) {
        encodings[index_of_key(encodings, "identity"@)]
    } else {
        encodings[0]
    }
}

/// Whether an encoding is delivered chunk by chunk: it is when it is longer
/// than one response takes and has more than one chunk.
pub open spec fn streamed(encoding: EncodingView) -> bool {
    encoding.content_chunks.len() > 1 && encoding.total_length > MAX_INLINE_BODY
}

/// The response that says `text` with `status_code`.
pub open spec fn error_reply(status_code: u16, text: Seq<char>) -> HttpResponseView {
    HttpResponseView {
        status_code,
        headers: Seq::empty(),
        body: encode_utf8(text),
        streaming_token: None,
    }
}

/// The response that delivers `asset`, stored at `path`.
pub open spec fn asset_reply(
    asset: AssetView,
    path: Seq<char>,
    status_code: u16,
) -> HttpResponseView {
    let (kind, encoding) = served_encoding(asset.encodings);
    if streamed(encoding) {
        HttpResponseView {
            status_code,
            headers: asset.headers,
            body: encoding.content_chunks[0],
            streaming_token: next_token(path, kind, asset.headers, encoding, 0),
        }
    } else {
        HttpResponseView {
            status_code,
            headers: asset.headers,
            body: encoding.content_chunks.flatten(),
            streaming_token: None,
        }
    }
}

/// The headers of a redirect.
pub open spec fn redirect_headers(redirect: RedirectView, iframe: bool) -> Seq<
    (Seq<char>, Seq<char>),
> {
    if iframe {
        seq![("Location"@, redirect.location)]
    } else {
        seq![("Location"@, redirect.location), ("X-Frame-Options"@, "DENY"@)]
    }
}

/// The response that redirects.
pub open spec fn redirect_reply(redirect: RedirectView, iframe: bool) -> HttpResponseView {
    HttpResponseView {
        status_code: redirect.status_code,
        headers: redirect_headers(redirect, iframe),
        body: Seq::empty(),
        streaming_token: None,
    }
}

/// The response to a resolved path.
pub open spec fn routing_reply(routing: Result<RoutingView, ErrorView>) -> HttpResponseView {
    match routing {
        Ok(RoutingView::Default { url, asset }) => asset_reply(asset, url, 200),
        Ok(RoutingView::Rewrite { url, asset, source, status_code }) => asset_reply(
            asset,
            source,
            status_code,
        ),
        Ok(RoutingView::Redirect { url, redirect, iframe }) => redirect_reply(redirect, iframe),
        Err(refusal) => error_reply(
            405,
            "Permission denied. Cannot perform this operation. "@ + error_text(refusal),
        ),
    }
}

/// The response to a request.
pub open spec fn http_outcome(
    assets: AssetsView,
    rules: RulesView,
    config: StorageConfigView,
    method: Seq<char>,
    url: Seq<char>,
) -> HttpResponseView {
    if method != "GET"@ {
        error_reply(405, "Method Not Allowed."@)
    } else {
        routing_reply(routing_outcome(assets, rules, config, url, true))
    }
}

/// The place of the asset that is delivered for `path`.
pub fn find_public_asset(assets: &AssetStore, rules: &Rules, path: &String) -> (r: Option<usize>)
    requires
        assets.wf(),
        rules.wf(),
    ensures
        match r {
            Some(i) => i < assets@.len() && is_served(assets@, rules@, path@) && serving_place(
                assets@,
                rules@,
                path@,
            ) == i,
            None => !is_served(assets@, rules@, path@),
        },
{
    let mut i: usize = 0;
    while i < assets.len()
        invariant
            assets.wf(),
            rules.wf(),
            i <= assets@.len(),
            forall|j: int| 0 <= j < i ==> !#[trigger] serves(assets@, rules@, j, path@),
        decreases assets@.len() - i,
    {
        let id = assets.key_at(i);
        if id.1 == *path {
            let rule = get_rule(rules, RulesType::Storage, &id.0);
            if rule.read == Permission::Public {
                proof {
                    assert(first_serving(assets@, rules@, i as int, path@));
                    let chosen = serving_place(assets@, rules@, path@);
                    assert(first_serving(assets@, rules@, chosen, path@));
                    if chosen < i {
                        assert(!serves(assets@, rules@, chosen, path@));
                    } else if i < chosen {
                        assert(!serves(assets@, rules@, i as int, path@));
                    }
                }
                return Some(i);
            }
        }
        i += 1;
    }
    proof {
        assert forall|k: int| !first_serving(assets@, rules@, k, path@) by {
            if first_serving(assets@, rules@, k, path@) {
                assert(serves(assets@, rules@, k, path@));
            }
        }
    }
    None
}

/// The asset that is delivered for an optional path, with the path.
fn find_public_asset_at<'a>(assets: &'a AssetStore, rules: &Rules, path: Option<&String>) -> (r:
    Option<(String, &'a Asset)>)
    requires
        assets.wf(),
        rules.wf(),
    ensures
        r.deep_view() == public_asset_at(assets@, rules@, path.deep_view()),
{
    match path {
        Some(path) => match find_public_asset(assets, rules, path) {
            Some(i) => Some((path.clone(), assets.value_at(i))),
            None => None,
        },
        None => None,
    }
}

/// The destination of the rewrite that applies to `path`.
pub fn find_rewrite<'a>(rewrites: &'a Vec<(String, String)>, path: &String) -> (r: Option<
    &'a String,
>)
    ensures
        r.deep_view() == rewrite_target(rewrites.deep_view(), path@),
{
    let ghost all = rewrites.deep_view();
    let mut best: Option<usize> = None;
    let mut best_length: usize = 0;
    let mut i: usize = 0;
    while i < rewrites.len()
        invariant
            all == rewrites.deep_view(),
            i <= rewrites.len(),
            match best {
                None => forall|j: int| 0 <= j < i ==> !#[trigger] rewrite_applies(all, j, path@),
                Some(b) => b < i && rewrite_applies(all, b as int, path@) && best_length
                    == source_length(all, b as int) && forall|j: int|
                    0 <= j < i && #[trigger] rewrite_applies(all, j, path@) ==> source_length(
                        all,
                        j,
                    ) < source_length(all, b as int) || (source_length(all, j) == source_length(
                        all,
                        b as int,
                    ) && b <= j),
            },
        decreases rewrites.len() - i,
    {
        let source = &rewrites[i].0;
        assert(source@ == all[i as int].0);
        if text_starts_with(path, source) {
            let length = bytes_of(source).len();
            let better = match best {
                None => true,
                Some(_) => length > best_length,
            };
            if better {
                best = Some(i);
                best_length = length;
            }
        }
        i += 1;
    }
    match best {
        Some(b) => {
            proof {
                assert(best_rewrite(all, b as int, path@));
                let chosen = rewrite_place(all, path@);
                assert(best_rewrite(all, chosen, path@));
                assert(chosen == b);
            }
            Some(&rewrites[b].1)
        },
        None => {
            proof {
                assert forall|k: int| !best_rewrite(all, k, path@) by {
                    if best_rewrite(all, k, path@) {
                        assert(rewrite_applies(all, k, path@));
                    }
                }
            }
            None
        },
    }
}

/// Where `path` is redirected to.
pub fn find_redirect<'a>(redirects: &'a Vec<(String, StorageConfigRedirect)>, path: &String) -> (r:
    Option<&'a StorageConfigRedirect>)
    ensures
        r.deep_view() == redirect_for(redirects.deep_view(), path@),
{
    match find_first(redirects, path) {
        Some(at) => Some(&redirects[at].1),
        None => None,
    }
}

/// Resolves a path to what is served for it.
pub fn get_routing<'a>(
    assets: &'a AssetStore,
    rules: &Rules,
    config: &StorageConfig,
    url: String,
    include_alternative: bool,
) -> (r: Result<Routing<'a>, Error>)
    requires
        assets.wf(),
        rules.wf(),
    ensures
        match routing_outcome(
            assets@,
            rules@,
            config.deep_view(),
            url@,
            include_alternative,
        ) {
            Ok(routing) => r matches Ok(found) && found.deep_view() == routing,
            Err(refusal) => r matches Err(error) && error.deep_view() == refusal,
        },
{
    match find_public_asset(assets, rules, &url) {
        Some(i) => {
            return Ok(Routing::Default(RoutingDefault { url, asset: assets.value_at(i) }));
        },
        None => {},
    }
    if !include_alternative {
        return Err(Error::NotFound);
    }
    match find_public_asset_at(assets, rules, find_rewrite(&config.rewrites, &url)) {
        Some((source, asset)) => {
            return Ok(Routing::Rewrite(RoutingRewrite { url, asset, source, status_code: 200 }));
        },
        None => {},
    }
    match find_redirect(&config.redirects, &url) {
        Some(redirect) => {
            return Ok(
                Routing::Redirect(
                    RoutingRedirect { url, redirect: redirect.duplicate(), iframe: config.iframe },
                ),
            );
        },
        None => {},
    }
    match find_public_asset_at(assets, rules, config.not_found.as_ref()) {
        Some((source, asset)) => Ok(
            Routing::Rewrite(RoutingRewrite { url, asset, source, status_code: 404 }),
        ),
        None => Err(Error::NotFound),
    }
}

/// The token for the chunk behind chunk `index` of `encoding`.
pub fn create_token(
    full_path: &String,
    index: usize,
    encoding: &Encoding,
    encoding_type: &String,
    headers: &Vec<HeaderField>,
) -> (r: Option<StreamingCallbackToken>)
    ensures
        r.deep_view() == next_token(
            full_path@,
            encoding_type@,
            headers.deep_view(),
            encoding.deep_view(),
            index as int,
        ),
{
    if index < usize::MAX && index + 1 < encoding.content_chunks.len() {
        Some(
            StreamingCallbackToken {
                full_path: full_path.clone(),
                encoding_type: encoding_type.clone(),
                index: index + 1,
                sha256: copy_bytes(&encoding.sha256),
                headers: copy_list(headers),
            },
        )
    } else {
        None
    }
}

/// The response that says `text` with `status_code`.
pub fn error_response(status_code: u16, text: String) -> (r: HttpResponse)
    ensures
        r.deep_view() == error_reply(status_code, text@),
{
    let bytes = bytes_of(&text);
    let mut body: Vec<u8> = Vec::new();
    let mut i: usize = 0;
    while i < bytes.len()
        invariant
            i <= bytes.len(),
            body@ == bytes@.take(i as int),
        decreases bytes.len() - i,
    {
        body.push(bytes[i]);
        assert(bytes@.take(i + 1) =~= bytes@.take(i as int).push(bytes@[i as int]));
        i += 1;
    }
    assert(bytes@.take(i as int) =~= bytes@);
    let r = HttpResponse { status_code, headers: Vec::new(), body, streaming_token: None };
    assert(r.headers.deep_view() =~= Seq::empty());
    r
}

/// The response that delivers `asset`, stored at `path`.
pub fn build_asset_response(asset: &Asset, path: &String, status_code: u16) -> (r: HttpResponse)
    requires
        asset_wf(asset.deep_view()),
    ensures
        r.deep_view() == asset_reply(asset.deep_view(), path@, status_code),
{
    let identity = String::from_str("identity");
    let place = match asset.encodings.position(&identity) {
        Some(i) => i,
        None => 0,
    };
    let kind = asset.encodings.key_at(place);
    let encoding = asset.encodings.value_at(place);
    assert(served_encoding(asset.deep_view().encodings) == (kind@, encoding.deep_view()));
    if encoding.content_chunks.len() > 1 && encoding.total_length > MAX_INLINE_BODY {
        HttpResponse {
            status_code,
            headers: copy_list(&asset.headers),
            body: copy_bytes(&encoding.content_chunks[0]),
            streaming_token: create_token(path, 0, encoding, kind, &asset.headers),
        }
    } else {
        HttpResponse {
            status_code,
            headers: copy_list(&asset.headers),
            body: join_blocks(&encoding.content_chunks),
            streaming_token: None,
        }
    }
}

/// The response that redirects.
pub fn build_redirect_response(redirect: &StorageConfigRedirect, iframe: bool) -> (r: HttpResponse)
    ensures
        r.deep_view() == redirect_reply(redirect.deep_view(), iframe),
{
    let mut headers: Vec<HeaderField> = Vec::new();
    headers.push((String::from_str("Location"), redirect.location.clone()));
    if !iframe {
        headers.push((String::from_str("X-Frame-Options"), String::from_str("DENY")));
    }
    assert(headers.deep_view() =~= redirect_headers(redirect.deep_view(), iframe));
    let r = HttpResponse {
        status_code: redirect.status_code,
        headers,
        body: Vec::new(),
        streaming_token: None,
    };
    assert(r.body@ =~= Seq::empty());
    r
}

/// Answers a request for the asset at a path.
pub fn serve(
    assets: &AssetStore,
    rules: &Rules,
    config: &StorageConfig,
    request: HttpRequest,
) -> (r: HttpResponse)
    requires
        assets_wf(assets@),
        rules.wf(),
    ensures
        r.deep_view() == http_outcome(
            assets@,
            rules@,
            config.deep_view(),
            request.method@,
            request.url@,
        ),
{
    if request.method != String::from_str("GET") {
        return error_response(405, String::from_str("Method Not Allowed."));
    }
    match get_routing(assets, rules, config, request.url, true) {
        Ok(Routing::Default(found)) => {
            proof {
                lemma_served_wf(assets@, rules@, found.url@);
            }
            build_asset_response(found.asset, &found.url, 200)
        },
        Ok(Routing::Rewrite(found)) => {
            proof {
                lemma_served_wf(assets@, rules@, found.source@);
            }
            build_asset_response(found.asset, &found.source, found.status_code)
        },
        Ok(Routing::Redirect(found)) => build_redirect_response(&found.redirect, found.iframe),
        Err(error) => error_response(
            405,
            String::from_str("Permission denied. Cannot perform this operation. ").concat(
                error.message().as_str(),
            ),
        ),
    }
}

/// An asset that is delivered is one of the store, and so well formed.
pub proof fn lemma_served_wf(assets: AssetsView, rules: RulesView, path: Seq<char>)
    requires
        assets_wf(assets),
    ensures
        public_asset(assets, rules, path) matches Some(asset) ==> asset_wf(asset),
{
    if is_served(assets, rules, path) {
        let i = serving_place(assets, rules, path);
        assert(first_serving(assets, rules, i, path));
        assert(asset_wf(assets[i].1));
    }
}

/// Hands out the chunk that a token asks for, and the token for the next.
pub fn stream(assets: &AssetStore, rules: &Rules, token: StreamingCallbackToken) -> (r: Result<
    StreamingCallbackHttpResponse,
    Error,
>)
    requires
        assets_wf(assets@),
        rules.wf(),
    ensures
        match streaming_outcome(assets@, rules@, token.deep_view()) {
            Ok((body, next)) => r matches Ok(response) && response.body@ == body
                && response.token.deep_view() == next,
            Err(refusal) => r matches Err(error) && error.deep_view() == refusal,
        },
{
    let asset = match find_public_asset(assets, rules, &token.full_path) {
        Some(i) => assets.value_at(i),
        None => {
            return Err(Error::NotFound);
        },
    };
    proof {
        lemma_served_wf(assets@, rules@, token.full_path@);
    }
    let encoding = match asset.encodings.get(&token.encoding_type) {
        Some(encoding) => encoding,
        None => {
            return Err(Error::NotFound);
        },
    };
    if !same_bytes(&token.sha256, &encoding.sha256) {
        return Err(Error::IntegrityMismatch);
    }
    if token.index >= encoding.content_chunks.len() {
        return Err(Error::NotFound);
    }
    Ok(
        StreamingCallbackHttpResponse {
            body: copy_bytes(&encoding.content_chunks[token.index]),
            token: create_token(
                &token.full_path,
                token.index,
                encoding,
                &token.encoding_type,
                &token.headers,
            ),
        },
    )
}

} // verus!
