//! Backend client provisioning: from optional per-request credentials to a
//! capability-scoped backend handle description. No network call happens
//! here; the application turns the returned description into a real client,
//! and the backend validates the credentials lazily on first use.

use vstd::prelude::*;
use crate::error::DavError;
use crate::model::Credentials;

verus! {

/// Endpoint settings read once at process start, immutable afterwards. An
/// empty endpoint means the provider's default public endpoint.
#[derive(Debug)]
pub struct EndpointConfig {
    pub endpoint: String,
    pub region: String,
    pub force_path_style: bool,
}

impl EndpointConfig {
    /// A field-for-field copy.
    pub fn duplicate(&self) -> (r: EndpointConfig)
        ensures
            r.endpoint@ == self.endpoint@,
            r.region@ == self.region@,
            r.force_path_style == self.force_path_style,
    {
        EndpointConfig {
            endpoint: self.endpoint.clone(),
            region: self.region.clone(),
            force_path_style: self.force_path_style,
        }
    }
}

/// Everything needed to build one backend client: endpoint settings plus the
/// credentials the client is bound to. Owned by the request that resolved it.
#[derive(Debug)]
pub struct BackendSpec {
    pub config: EndpointConfig,
    pub access_key: String,
    pub secret_key: String,
}

/// How the gateway is deployed: one process-wide handle with fixed
/// credentials, or a fresh handle per request from Basic-Auth credentials.
pub enum DeploymentMode {
    Fixed(BackendSpec),
    PerRequest(EndpointConfig),
}

/// Resolve the backend handle description for one request.
///
/// In fixed mode the configured handle is returned and `credentials` is
/// ignored. In per-request mode both credential parts must be non-empty;
/// otherwise the request fails with `AuthenticationRequired`, which callers
/// surface as an HTTP 401 challenge.
pub fn resolve_backend(mode: &DeploymentMode, credentials: &Option<Credentials>) -> (r: Result<
    BackendSpec,
    DavError,
>)
    ensures
        match mode {
            DeploymentMode::Fixed(fixed) => {
                &&& r is Ok
                &&& r->Ok_0.config.endpoint@ == fixed.config.endpoint@
                &&& r->Ok_0.config.region@ == fixed.config.region@
                &&& r->Ok_0.config.force_path_style == fixed.config.force_path_style
                &&& r->Ok_0.access_key@ == fixed.access_key@
                &&& r->Ok_0.secret_key@ == fixed.secret_key@
            },
            DeploymentMode::PerRequest(config) => {
                match credentials {
                    Some(c) if c.spec_accepted() => {
                        &&& r is Ok
                        &&& r->Ok_0.config.endpoint@ == config.endpoint@
                        &&& r->Ok_0.config.region@ == config.region@
                        &&& r->Ok_0.config.force_path_style == config.force_path_style
                        &&& r->Ok_0.access_key@ == c.access_key@
                        &&& r->Ok_0.secret_key@ == c.secret_key@
                    },
                    _ => r == Result::<BackendSpec, DavError>::Err(DavError::AuthenticationRequired),
                }
            },
        },
{
    match mode {
        DeploymentMode::Fixed(fixed) => Ok(BackendSpec {
            config: fixed.config.duplicate(),
            access_key: fixed.access_key.clone(),
            secret_key: fixed.secret_key.clone(),
        }),
        DeploymentMode::PerRequest(config) => {
            match credentials {
                Some(c) => {
                    if !c.access_key.as_str().is_empty() && !c.secret_key.as_str().is_empty() {
                        Ok(BackendSpec {
                            config: config.duplicate(),
                            access_key: c.access_key.clone(),
                            secret_key: c.secret_key.clone(),
                        })
                    } else {
                        Err(DavError::AuthenticationRequired)
                    }
                },
                None => Err(DavError::AuthenticationRequired),
            }
        },
    }
}

} // verus!
