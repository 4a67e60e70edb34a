//! The API endpoint: its base URL, the application identifier sent with
//! every request, and the building of request URLs.

use vstd::prelude::*;
use vstd::string::StringExecFns;

verus! {

/// The default API endpoint.
pub const BASE_URL: &'static str = "https://api.glowmarkt.com/api/v0-1";

/// The default application ID to use when communicating with the API.
pub const APPLICATION_ID: &'static str = "b0f1b774-a586-4f72-9edd-27ead8aa7a8d";

/// The API endpoint.
///
/// Normally a non-default endpoint would only be useful for testing
/// purposes.
#[derive(Debug, Clone)]
pub struct GlowmarktEndpoint {
    /// The URL of the API endpoint.
    pub base_url: String,
    /// The application ID to use when communicating with the endpoint.
    pub app_id: String,
}

impl Default for GlowmarktEndpoint {
    /// The standard API endpoint with its application identifier.
    fn default() -> (r: GlowmarktEndpoint)
        ensures
            r.base_url@ == BASE_URL@,
            r.app_id@ == APPLICATION_ID@,
    {
        GlowmarktEndpoint { base_url: BASE_URL.to_owned(), app_id: APPLICATION_ID.to_owned() }
    }
}

impl GlowmarktEndpoint {
    /// The URL of a path under this endpoint.
    pub fn url(&self, path: &str) -> (r: String)
        ensures
            r@ == self.base_url@ + "/"@ + path@,
    {
        let mut r = self.base_url.clone();
        r.append("/");
        r.append(path);
        r
    }
}

} // verus!
