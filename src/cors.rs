//! Cross-origin rules of the HTTP front end: which origins, methods and
//! headers a browser may use.

use vstd::prelude::*;
use crate::text::{eq_ignore_ascii_case, eq_ignoring_ascii_case, str_eq, strings_of, texts};

verus! {

/// Cross-origin settings. `allowed_origins` of `None` allows every origin.
#[derive(Debug, Clone)]
pub struct CorsConfig {
    pub enabled: bool,
    pub allowed_origins: Option<Vec<String>>,
    pub allowed_methods: Vec<String>,
    pub allowed_headers: Vec<String>,
    pub expose_headers: Vec<String>,
    pub allow_credentials: bool,
    pub max_age_secs: u64,
}

pub open spec fn default_methods() -> Seq<Seq<char>> {
    seq!["GET"@, "POST"@, "PUT"@, "DELETE"@, "OPTIONS"@]
}

pub open spec fn default_headers() -> Seq<Seq<char>> {
    seq!["Content-Type"@, "Authorization"@, "X-API-Key"@]
}

pub open spec fn default_expose_headers() -> Seq<Seq<char>> {
    seq!["X-RateLimit-Limit"@, "X-RateLimit-Remaining"@, "X-RateLimit-Reset"@]
}

/// Whether `origin` may make cross-origin requests under `c`.
pub open spec fn origin_allowed(c: CorsConfig, origin: Seq<char>) -> bool {
    c.enabled && match c.allowed_origins {
        None => true,
        Some(os) => exists|i: int| 0 <= i < os@.len() && ((#[trigger] os@[i])@ == origin || os@[i]@ == "*"@),
    }
}

pub open spec fn method_allowed(c: CorsConfig, method: Seq<char>) -> bool {
    c.enabled && exists|i: int|
        0 <= i < c.allowed_methods@.len() && eq_ignoring_ascii_case(#[trigger] c.allowed_methods@[i]@, method)
}

pub open spec fn header_allowed(c: CorsConfig, header: Seq<char>) -> bool {
    c.enabled && exists|i: int|
        0 <= i < c.allowed_headers@.len() && ((#[trigger] c.allowed_headers@[i])@ == "*"@
            || eq_ignoring_ascii_case(c.allowed_headers@[i]@, header))
}

impl Default for CorsConfig {
    fn default() -> (r: CorsConfig)
        ensures
            r.enabled,
            r.allowed_origins is None,
            texts(r.allowed_methods@) == default_methods(),
            texts(r.allowed_headers@) == default_headers(),
            texts(r.expose_headers@) == default_expose_headers(),
            !r.allow_credentials,
            r.max_age_secs == 86400,
    {
        let r = CorsConfig {
            enabled: true,
            allowed_origins: None,
            allowed_methods: strings_of(&["GET", "POST", "PUT", "DELETE", "OPTIONS"]),
            allowed_headers: strings_of(&["Content-Type", "Authorization", "X-API-Key"]),
            expose_headers: strings_of(&["X-RateLimit-Limit", "X-RateLimit-Remaining", "X-RateLimit-Reset"]),
            allow_credentials: false,
            max_age_secs: 86400,
        };
        assert(texts(r.allowed_methods@) =~= default_methods());
        assert(texts(r.allowed_headers@) =~= default_headers());
        assert(texts(r.expose_headers@) =~= default_expose_headers());
        r
    }
}

impl CorsConfig {
    /// Every origin, every common method and header, with credentials.
    pub fn permissive() -> (r: CorsConfig)
        ensures
            r.enabled,
            r.allowed_origins is None,
            texts(r.allowed_methods@) == seq!["GET"@, "POST"@, "PUT"@, "PATCH"@, "DELETE"@, "OPTIONS"@, "HEAD"@],
            texts(r.allowed_headers@) == seq!["*"@],
            texts(r.expose_headers@) == seq!["*"@],
            r.allow_credentials,
            r.max_age_secs == 86400,
    {
        let r = CorsConfig {
            enabled: true,
            allowed_origins: None,
            allowed_methods: strings_of(&["GET", "POST", "PUT", "PATCH", "DELETE", "OPTIONS", "HEAD"]),
            allowed_headers: strings_of(&["*"]),
            expose_headers: strings_of(&["*"]),
            allow_credentials: true,
            max_age_secs: 86400,
        };
        assert(texts(r.allowed_methods@) =~= seq!["GET"@, "POST"@, "PUT"@, "PATCH"@, "DELETE"@, "OPTIONS"@, "HEAD"@]);
        assert(texts(r.allowed_headers@) =~= seq!["*"@]);
        assert(texts(r.expose_headers@) =~= seq!["*"@]);
        r
    }

    /// Only the given origins, a few methods and headers, no credentials.
    pub fn strict(origins: Vec<String>) -> (r: CorsConfig)
        ensures
            r.enabled,
            r.allowed_origins == Some(origins),
            texts(r.allowed_methods@) == seq!["GET"@, "POST"@, "DELETE"@],
            texts(r.allowed_headers@) == seq!["Content-Type"@, "Authorization"@],
            r.expose_headers@.len() == 0,
            !r.allow_credentials,
            r.max_age_secs == 3600,
    {
        let r = CorsConfig {
            enabled: true,
            allowed_origins: Some(origins),
            allowed_methods: strings_of(&["GET", "POST", "DELETE"]),
            allowed_headers: strings_of(&["Content-Type", "Authorization"]),
            expose_headers: Vec::new(),
            allow_credentials: false,
            max_age_secs: 3600,
        };
        assert(texts(r.allowed_methods@) =~= seq!["GET"@, "POST"@, "DELETE"@]);
        assert(texts(r.allowed_headers@) =~= seq!["Content-Type"@, "Authorization"@]);
        r
    }

    /// The default settings, switched off.
    pub fn disabled() -> (r: CorsConfig)
        ensures
            !r.enabled,
            r.allowed_origins is None,
            texts(r.allowed_methods@) == default_methods(),
            texts(r.allowed_headers@) == default_headers(),
            !r.allow_credentials,
            r.max_age_secs == 86400,
    {
        let mut r = CorsConfig::default();
        r.enabled = false;
        r
    }

    pub fn is_origin_allowed(&self, origin: &str) -> (r: bool)
        ensures
            r == origin_allowed(*self, origin@),
    {
        if !self.enabled {
            return false;
        }
        match &self.allowed_origins {
            None => true,
            Some(origins) => {
                let mut i: usize = 0;
                while i < origins.len()
                    invariant
                        i <= origins@.len(),
                        self.enabled,
                        self.allowed_origins == Some(*origins),
                        forall|j: int| 0 <= j < i ==> !((#[trigger] origins@[j])@ == origin@ || origins@[j]@ == "*"@),
                    decreases origins.len() - i,
                {
                    if str_eq(origins[i].as_str(), origin) || str_eq(origins[i].as_str(), "*") {
                        let ghost os = self.allowed_origins->0;
                        assert(os@[i as int]@ == origin@ || os@[i as int]@ == "*"@);
                        return true;
                    }
                    i = i + 1;
                }
                false
            },
        }
    }

    /// Methods compare without regard to ASCII case.
    pub fn is_method_allowed(&self, method: &str) -> (r: bool)
        ensures
            r == method_allowed(*self, method@),
    {
        if !self.enabled {
            return false;
        }
        let mut i: usize = 0;
        while i < self.allowed_methods.len()
            invariant
                i <= self.allowed_methods@.len(),
                self.enabled,
                forall|j: int| 0 <= j < i ==> !eq_ignoring_ascii_case(#[trigger] self.allowed_methods@[j]@, method@),
            decreases self.allowed_methods.len() - i,
        {
            if eq_ignore_ascii_case(self.allowed_methods[i].as_str(), method) {
                assert(eq_ignoring_ascii_case(self.allowed_methods@[i as int]@, method@));
                return true;
            }
            i = i + 1;
        }
        false
    }

    /// A `*` entry allows every header; others compare without regard to
    /// ASCII case.
    pub fn is_header_allowed(&self, header: &str) -> (r: bool)
        ensures
            r == header_allowed(*self, header@),
    {
        if !self.enabled {
            return false;
        }
        let mut i: usize = 0;
        while i < self.allowed_headers.len()
            invariant
                i <= self.allowed_headers@.len(),
                self.enabled,
                forall|j: int| 0 <= j < i ==> !((#[trigger] self.allowed_headers@[j])@ == "*"@
                    || eq_ignoring_ascii_case(self.allowed_headers@[j]@, header@)),
            decreases self.allowed_headers.len() - i,
        {
            let h = self.allowed_headers[i].as_str();
            if str_eq(h, "*") || eq_ignore_ascii_case(h, header) {
                assert(self.allowed_headers@[i as int]@ == "*"@ || eq_ignoring_ascii_case(
                    self.allowed_headers@[i as int]@, header@));
                return true;
            }
            i = i + 1;
        }
        false
    }

    /// Adds an allowed origin, creating the list if every origin was allowed.
    pub fn with_origin(self, origin: &str) -> (r: CorsConfig)
        ensures
            r.allowed_origins is Some,
            r.allowed_origins->0@ == match self.allowed_origins {
                Some(os) => os@,
                None => Seq::<String>::empty(),
            }.push(r.allowed_origins->0@.last()),
            r.allowed_origins->0@.last()@ == origin@,
            r.enabled == self.enabled,
            r.allowed_methods == self.allowed_methods,
            r.allowed_headers == self.allowed_headers,
            r.allow_credentials == self.allow_credentials,
            r.max_age_secs == self.max_age_secs,
    {
        let mut s = self;
        let mut origins = match s.allowed_origins {
            Some(os) => os,
            None => Vec::new(),
        };
        origins.push(origin.to_owned());
        s.allowed_origins = Some(origins);
        s
    }

    pub fn with_method(self, method: &str) -> (r: CorsConfig)
        ensures
            r.allowed_methods@.len() == self.allowed_methods@.len() + 1,
            r.allowed_methods@.drop_last() == self.allowed_methods@,
            r.allowed_methods@.last()@ == method@,
            r.enabled == self.enabled,
            r.allowed_origins == self.allowed_origins,
            r.allowed_headers == self.allowed_headers,
            r.allow_credentials == self.allow_credentials,
            r.max_age_secs == self.max_age_secs,
    {
        let mut s = self;
        s.allowed_methods.push(method.to_owned());
        s
    }

    pub fn with_header(self, header: &str) -> (r: CorsConfig)
        ensures
            r.allowed_headers@.len() == self.allowed_headers@.len() + 1,
            r.allowed_headers@.drop_last() == self.allowed_headers@,
            r.allowed_headers@.last()@ == header@,
            r.enabled == self.enabled,
            r.allowed_origins == self.allowed_origins,
            r.allowed_methods == self.allowed_methods,
            r.allow_credentials == self.allow_credentials,
            r.max_age_secs == self.max_age_secs,
    {
        let mut s = self;
        s.allowed_headers.push(header.to_owned());
        s
    }

    pub fn with_credentials(self, allow: bool) -> (r: CorsConfig)
        ensures
            r.allow_credentials == allow,
            r.enabled == self.enabled,
            r.allowed_origins == self.allowed_origins,
            r.allowed_methods == self.allowed_methods,
            r.allowed_headers == self.allowed_headers,
            r.max_age_secs == self.max_age_secs,
    {
        let mut s = self;
        s.allow_credentials = allow;
        s
    }

    pub fn with_max_age(self, secs: u64) -> (r: CorsConfig)
        ensures
            r.max_age_secs == secs,
            r.enabled == self.enabled,
            r.allowed_origins == self.allowed_origins,
            r.allowed_methods == self.allowed_methods,
            r.allowed_headers == self.allowed_headers,
            r.allow_credentials == self.allow_credentials,
    {
        let mut s = self;
        s.max_age_secs = secs;
        s
    }
}

} // verus!
