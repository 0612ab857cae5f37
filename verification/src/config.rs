//! What an administrator configures: how paths are routed, and the custom
//! domains.

use crate::db::next_timestamp;
use crate::error::{Error, ErrorView};
use crate::table::{has_key, lookup, put, without, Duplicate, Table};
use vstd::prelude::*;

verus! {

/// Where a redirected path leads, and with which status.
#[derive(Debug, Clone, PartialEq, Eq)]
pub struct StorageConfigRedirect {
    pub location: String,
    pub status_code: u16,
}

/// The model of a [`StorageConfigRedirect`].
pub struct RedirectView {
    pub location: Seq<char>,
    pub status_code: u16,
}

impl DeepView for StorageConfigRedirect {
    type V = RedirectView;

    open spec fn deep_view(&self) -> RedirectView {
        RedirectView { location: self.location@, status_code: self.status_code }
    }
}

impl Duplicate for StorageConfigRedirect {
    fn duplicate(&self) -> (r: Self) {
        StorageConfigRedirect { location: self.location.clone(), status_code: self.status_code }
    }
}

/// How the delivery routes the paths that match no asset.
#[derive(Debug, Clone, PartialEq, Eq)]
pub struct StorageConfig {
    /// Paths that start with the first text are served the asset at the
    /// second.
    pub rewrites: Vec<(String, String)>,
    /// Paths that are redirected, and where to.
    pub redirects: Vec<(String, StorageConfigRedirect)>,
    /// Whether redirects may be delivered into frames.
    pub iframe: bool,
    /// The asset served, with status 404, where nothing else matches.
    pub not_found: Option<String>,
}

/// The model of a [`StorageConfig`].
pub struct StorageConfigView {
    pub rewrites: Seq<(Seq<char>, Seq<char>)>,
    pub redirects: Seq<(Seq<char>, RedirectView)>,
    pub iframe: bool,
    pub not_found: Option<Seq<char>>,
}

impl DeepView for StorageConfig {
    type V = StorageConfigView;

    open spec fn deep_view(&self) -> StorageConfigView {
        StorageConfigView {
            rewrites: self.rewrites.deep_view(),
            redirects: self.redirects.deep_view(),
            iframe: self.iframe,
            not_found: self.not_found.deep_view(),
        }
    }
}

/// A copy of an optional text.
pub fn copy_text(text: &Option<String>) -> (r: Option<String>)
    ensures
        r.deep_view() == text.deep_view(),
{
    match text {
        Some(text) => Some(text.clone()),
        None => None,
    }
}

impl Duplicate for StorageConfig {
    fn duplicate(&self) -> (r: Self) {
        StorageConfig {
            rewrites: crate::table::copy_list(&self.rewrites),
            redirects: crate::table::copy_list(&self.redirects),
            iframe: self.iframe,
            not_found: copy_text(&self.not_found),
        }
    }
}

impl StorageConfig {
    /// No rewrites, no redirects, no fallback.
    pub fn new() -> (r: StorageConfig)
        ensures
            r.deep_view() == (StorageConfigView {
                rewrites: Seq::empty(),
                redirects: Seq::empty(),
                iframe: false,
                not_found: None,
            }),
    {
        let r = StorageConfig {
            rewrites: Vec::new(),
            redirects: Vec::new(),
            iframe: false,
            not_found: None,
        };
        assert(r.rewrites.deep_view() =~= Seq::empty());
        assert(r.redirects.deep_view() =~= Seq::empty());
        r
    }
}

/// The configuration as a whole.
#[derive(Debug, Clone, PartialEq, Eq)]
pub struct Config {
    pub storage: StorageConfig,
}

impl DeepView for Config {
    type V = StorageConfigView;

    open spec fn deep_view(&self) -> StorageConfigView {
        self.storage.deep_view()
    }
}

/// A custom domain.
#[derive(Debug, Clone, PartialEq, Eq)]
pub struct CustomDomain {
    pub bn_id: Option<String>,
    pub created_at: u64,
    pub updated_at: u64,
    pub version: u64,
}

/// The model of a [`CustomDomain`].
pub struct CustomDomainView {
    pub bn_id: Option<Seq<char>>,
    pub created_at: u64,
    pub updated_at: u64,
    pub version: u64,
}

impl DeepView for CustomDomain {
    type V = CustomDomainView;

    open spec fn deep_view(&self) -> CustomDomainView {
        CustomDomainView {
            bn_id: self.bn_id.deep_view(),
            created_at: self.created_at,
            updated_at: self.updated_at,
            version: self.version,
        }
    }
}

impl Duplicate for CustomDomain {
    fn duplicate(&self) -> (r: Self) {
        CustomDomain {
            bn_id: copy_text(&self.bn_id),
            created_at: self.created_at,
            updated_at: self.updated_at,
            version: self.version,
        }
    }
}

/// The custom domains, by name.
pub type CustomDomains = Table<String, CustomDomain>;

/// The model of the custom domains.
pub type CustomDomainsView = Seq<(Seq<char>, CustomDomainView)>;

/// The domain that setting leaves, or `None` where the version or the time
/// of the stored one cannot be followed by another.
pub open spec fn domain_set(existing: Option<CustomDomainView>, bn_id: Option<Seq<char>>, now: u64)
    -> Option<CustomDomainView> {
    match existing {
        None => Some(CustomDomainView { bn_id, created_at: now, updated_at: now, version: 1 }),
        Some(domain) => if domain.version == u64::MAX || next_timestamp(domain.updated_at, now)
            > u64::MAX {
            None
        } else {
            Some(
                CustomDomainView {
                    bn_id,
                    created_at: domain.created_at,
                    updated_at: next_timestamp(domain.updated_at, now) as u64,
                    version: (domain.version + 1) as u64,
                },
            )
        },
    }
}

/// Sets a custom domain: creates it at version 1, or replaces the stored
/// one and moves its version on by one.
pub fn set_domain_store(
    domains: &mut CustomDomains,
    domain_name: &String,
    bn_id: &Option<String>,
    now: u64,
) -> (r: Result<(), Error>)
    requires
        old(domains).wf(),
    ensures
        final(domains).wf(),
        match domain_set(lookup(old(domains)@, domain_name@), bn_id.deep_view(), now) {
            Some(domain) => r is Ok && final(domains)@ == put(old(domains)@, domain_name@, domain),
            None => r matches Err(error) && error.deep_view() == ErrorView::InvalidInput
                && final(domains)@ == old(domains)@,
        },
{
    let domain = match domains.get(domain_name) {
        None => CustomDomain {
            bn_id: copy_text(bn_id),
            created_at: now,
            updated_at: now,
            version: 1,
        },
        Some(current) => {
            if current.version == u64::MAX || (now <= current.updated_at && current.updated_at
                == u64::MAX) {
                return Err(Error::InvalidInput);
            }
            let updated_at = if now > current.updated_at {
                now
            } else {
                current.updated_at + 1
            };
            CustomDomain {
                bn_id: copy_text(bn_id),
                created_at: current.created_at,
                updated_at,
                version: current.version + 1,
            }
        },
    };
    domains.put(domain_name.clone(), domain);
    Ok(())
}

/// Deletes a custom domain. A domain that is not there is refused.
pub fn delete_domain_store(domains: &mut CustomDomains, domain_name: &String) -> (r: Result<
    (),
    Error,
>)
    requires
        old(domains).wf(),
    ensures
        final(domains).wf(),
        final(domains)@ == without(old(domains)@, domain_name@),
        has_key(old(domains)@, domain_name@) ==> r is Ok,
        !has_key(old(domains)@, domain_name@) ==> (r matches Err(error) && error.deep_view()
            == ErrorView::NotFound),
{
    match domains.take(domain_name) {
        Some(_) => Ok(()),
        None => Err(Error::NotFound),
    }
}

} // verus!
