//! Configuration values and their validation rules.
//!
//! Reading the environment and the configuration file happens outside this
//! crate; the values read are handed in as plain strings and checked here.

use vstd::prelude::*;
use vstd::string::StringExecFns;
use vstd::string::StrSliceExecFns;

use crate::digits::{dec_val, parse_u8, parses_as_u8};
use crate::index::{CatView, Pos};
use crate::state::{AppState, ConnectionState, RETRY_ATTEMPTS};

verus! {

/// Connection and serving settings, all kept as plain text.
#[derive(Debug)]
pub struct Config {
    socket_addr: String,
    cors_origin: String,
    cluster_url: String,
    region: String,
    token: String,
}

/// Why a set of configuration values was rejected.
#[derive(Clone, Copy, Debug, PartialEq, Eq, Structural)]
pub enum ConfigError {
    /// No region was given.
    MissingRegion,
    /// No token was given.
    MissingToken,
    /// The token given was empty.
    EmptyToken,
    /// The region given was not a number a `u8` can hold.
    InvalidRegion,
    /// The CORS origin was the wildcard, which is not served.
    AnyCorsOrigin,
}

/// The address served when none is configured.
pub fn default_socket_addr() -> (r: String)
    ensures
        r@ == "0.0.0.0:3000"@,
{
    String::from_str("0.0.0.0:3000")
}

/// The upstream cluster reached when none is configured.
pub fn default_cluster_url() -> (r: String)
    ensures
        r@ == "https://bitcraft-early-access.spacetimedb.com"@,
{
    String::from_str("https://bitcraft-early-access.spacetimedb.com")
}

impl Config {
    /// The configured serving address, as text.
    pub closed spec fn spec_socket_addr(&self) -> Seq<char> {
        self.socket_addr@
    }

    /// The configured CORS origin, as text.
    pub closed spec fn spec_cors_origin(&self) -> Seq<char> {
        self.cors_origin@
    }

    /// The configured cluster URL, as text.
    pub closed spec fn spec_cluster_url(&self) -> Seq<char> {
        self.cluster_url@
    }

    /// The configured region, as text.
    pub closed spec fn spec_region(&self) -> Seq<char> {
        self.region@
    }

    /// The configured access token, as text.
    pub closed spec fn spec_token(&self) -> Seq<char> {
        self.token@
    }

    /// An all-empty configuration, written out as a template when no
    /// configuration file exists yet.
    pub fn new() -> (r: Self)
        ensures
            r.spec_socket_addr().len() == 0,
            r.spec_cors_origin().len() == 0,
            r.spec_cluster_url().len() == 0,
            r.spec_region().len() == 0,
            r.spec_token().len() == 0,
    {
        Self {
            socket_addr: String::new(),
            cors_origin: String::new(),
            cluster_url: String::new(),
            region: String::new(),
            token: String::new(),
        }
    }

    /// Builds a configuration from values read from the environment:
    /// the address, origin and cluster fall back to defaults, while the
    /// region and the token are required.
    pub fn from_env_parts(
        socket_addr: Option<String>,
        cors_origin: Option<String>,
        cluster_url: Option<String>,
        region: Option<String>,
        token: Option<String>,
    ) -> (r: Result<Self, ConfigError>)
        ensures
            region is None ==> r == Result::<Self, ConfigError>::Err(ConfigError::MissingRegion),
            region is Some && token is None ==> r == Result::<Self, ConfigError>::Err(
                ConfigError::MissingToken,
            ),
            region is Some && token is Some ==> {
                &&& r is Ok
                &&& r->Ok_0.spec_region() == region->Some_0@
                &&& r->Ok_0.spec_token() == token->Some_0@
                &&& (match socket_addr {
                    Some(s) => r->Ok_0.spec_socket_addr() == s@,
                    None => r->Ok_0.spec_socket_addr() == "0.0.0.0:3000"@,
                })
                &&& (match cors_origin {
                    Some(s) => r->Ok_0.spec_cors_origin() == s@,
                    None => r->Ok_0.spec_cors_origin().len() == 0,
                })
                &&& (match cluster_url {
                    Some(s) => r->Ok_0.spec_cluster_url() == s@,
                    None => r->Ok_0.spec_cluster_url()
                        == "https://bitcraft-early-access.spacetimedb.com"@,
                })
            },
    {
        let region = match region {
            Some(r) => r,
            None => {
                return Err(ConfigError::MissingRegion);
            },
        };
        let token = match token {
            Some(t) => t,
            None => {
                return Err(ConfigError::MissingToken);
            },
        };
        let socket_addr = match socket_addr {
            Some(s) => s,
            None => default_socket_addr(),
        };
        let cors_origin = match cors_origin {
            Some(s) => s,
            None => String::new(),
        };
        let cluster_url = match cluster_url {
            Some(s) => s,
            None => default_cluster_url(),
        };
        Ok(Self { socket_addr, cors_origin, cluster_url, region, token })
    }

    /// Whether any of the values the connection needs is missing.
    pub fn is_empty(&self) -> (r: bool)
        ensures
            r == (self.spec_cluster_url().len() == 0 || self.spec_region().len() == 0
                || self.spec_token().len() == 0),
    {
        self.cluster_url.as_str().is_empty() || self.region.as_str().is_empty()
            || self.token.as_str().is_empty()
    }

    /// The address to serve on.
    pub fn socket_addr(&self) -> (r: &str)
        ensures
            r@ == self.spec_socket_addr(),
    {
        self.socket_addr.as_str()
    }

    /// The allowed CORS origin; empty when none is allowed.
    pub fn cors_origin(&self) -> (r: &str)
        ensures
            r@ == self.spec_cors_origin(),
    {
        self.cors_origin.as_str()
    }

    /// The upstream cluster's URL.
    pub fn cluster_url(&self) -> (r: &str)
        ensures
            r@ == self.spec_cluster_url(),
    {
        self.cluster_url.as_str()
    }

    /// The upstream region, as configured.
    pub fn region(&self) -> (r: &str)
        ensures
            r@ == self.spec_region(),
    {
        self.region.as_str()
    }

    /// The upstream access token.
    pub fn token(&self) -> (r: &str)
        ensures
            r@ == self.spec_token(),
    {
        self.token.as_str()
    }
}

/// Applies connection settings to a builder for the upstream feed.
/// Implemented outside this crate, where the builder's type lives.
pub trait Configurable {
    fn configure(self, config: &Config) -> Self where Self: Sized;
}

/// Settings for the connection to the upstream feed.
#[derive(Debug)]
pub struct DbConfig {
    /// Which upstream region's module to subscribe to.
    pub region: u8,
    /// The access token presented on connect.
    pub token: String,
}

/// Applies feed settings to a builder for the upstream feed.
/// Implemented outside this crate, where the builder's type lives.
pub trait WithDbConfig {
    fn configure(self, config: &DbConfig) -> Self where Self: Sized;
}

/// Whether `s` is exactly the CORS wildcard.
fn is_star(s: &str) -> (r: bool)
    ensures
        r == (s@ == "*"@),
{
    proof {
        reveal_strlit("*");
    }
    if s.unicode_len() == 1 {
        let c = s.get_char(0);
        proof {
            if c == '*' {
                assert(s@ =~= "*"@);
            }
        }
        c == '*'
    } else {
        false
    }
}

/// Checks the values that must hold before serving starts: a token must
/// be present and the CORS origin may not be the wildcard.
pub fn validate_db_and_cors(token: &String, cors_origin: &String) -> (r: Result<(), ConfigError>)
    ensures
        token@.len() == 0 ==> r == Result::<(), ConfigError>::Err(ConfigError::EmptyToken),
        token@.len() > 0 && cors_origin@ == "*"@ ==> r == Result::<(), ConfigError>::Err(
            ConfigError::AnyCorsOrigin,
        ),
        token@.len() > 0 && cors_origin@ != "*"@ ==> r is Ok,
{
    if token.as_str().is_empty() {
        return Err(ConfigError::EmptyToken);
    }
    if is_star(cors_origin.as_str()) {
        return Err(ConfigError::AnyCorsOrigin);
    }
    Ok(())
}

/// Reads a region number from its textual form; the settings are
/// rejected when the text is not a number a `u8` can hold.
pub fn parse_region(region: &str) -> (r: Result<u8, ConfigError>)
    ensures
        parses_as_u8(region@) ==> r == Result::<u8, ConfigError>::Ok(dec_val(region@) as u8),
        !parses_as_u8(region@) ==> r == Result::<u8, ConfigError>::Err(ConfigError::InvalidRegion),
{
    match parse_u8(region) {
        Some(v) => Ok(v),
        None => Err(ConfigError::InvalidRegion),
    }
}

/// One tracked entity class from the configuration file: a category
/// identifier and its display name. The presentation-layer extras that
/// ride along in the file stay outside this crate.
pub struct Entity {
    pub id: i32,
    pub name: String,
}

/// Where and for whom the read API serves.
pub struct ServerConfig {
    /// The address to serve on, as text.
    pub socket_addr: String,
    /// The allowed CORS origin; empty disables CORS.
    pub cors_origin: String,
}

/// Everything the service needs at startup: feed settings, serving
/// settings, and the configured categories of both kinds.
pub struct AppConfig {
    pub db: DbConfig,
    pub server: ServerConfig,
    pub resources: Vec<Entity>,
    pub enemies: Vec<Entity>,
}

impl AppConfig {
    /// The token that results from an override.
    pub open spec fn merged_token(&self, token: Option<String>) -> Seq<char> {
        match token {
            Some(t) => t@,
            None => self.db.token@,
        }
    }

    /// The region that results from an override.
    pub open spec fn merged_region(&self, region: Option<String>) -> int {
        match region {
            Some(r) => dec_val(r@),
            None => self.db.region as int,
        }
    }

    /// The serving address that results from an override.
    pub open spec fn merged_socket_addr(&self, socket_addr: Option<String>) -> Seq<char> {
        match socket_addr {
            Some(a) => a@,
            None => self.server.socket_addr@,
        }
    }

    /// The CORS origin that results from an override.
    pub open spec fn merged_cors_origin(&self, cors_origin: Option<String>) -> Seq<char> {
        match cors_origin {
            Some(o) => o@,
            None => self.server.cors_origin@,
        }
    }

    /// Lays the values read from the environment over the file's, then
    /// checks what serving requires: the region must be a number a `u8`
    /// can hold, the token may not end up empty, and the CORS origin may
    /// not be the wildcard.
    pub fn apply_env(
        self,
        token: Option<String>,
        region: Option<String>,
        socket_addr: Option<String>,
        cors_origin: Option<String>,
    ) -> (r: Result<AppConfig, ConfigError>)
        ensures
            (region matches Some(g) && !parses_as_u8(g@)) ==> r == Result::<
                AppConfig,
                ConfigError,
            >::Err(ConfigError::InvalidRegion),
            (region matches Some(g) ==> parses_as_u8(g@)) && self.merged_token(token).len() == 0
                ==> r == Result::<AppConfig, ConfigError>::Err(ConfigError::EmptyToken),
            (region matches Some(g) ==> parses_as_u8(g@)) && self.merged_token(token).len() > 0
                && self.merged_cors_origin(cors_origin) == "*"@ ==> r == Result::<
                AppConfig,
                ConfigError,
            >::Err(ConfigError::AnyCorsOrigin),
            (region matches Some(g) ==> parses_as_u8(g@)) && self.merged_token(token).len() > 0
                && self.merged_cors_origin(cors_origin) != "*"@ ==> {
                &&& r is Ok
                &&& r->Ok_0.db.token@ == self.merged_token(token)
                &&& r->Ok_0.db.region == self.merged_region(region)
                &&& r->Ok_0.server.socket_addr@ == self.merged_socket_addr(socket_addr)
                &&& r->Ok_0.server.cors_origin@ == self.merged_cors_origin(cors_origin)
                &&& r->Ok_0.resources == self.resources
                &&& r->Ok_0.enemies == self.enemies
            },
    {
        let AppConfig { db, server, resources, enemies } = self;
        let DbConfig { region: file_region, token: file_token } = db;
        let ServerConfig { socket_addr: file_addr, cors_origin: file_cors } = server;
        let token = match token {
            Some(t) => t,
            None => file_token,
        };
        let region_num: u8 = match region {
            Some(g) => match parse_region(g.as_str()) {
                Ok(v) => v,
                Err(e) => {
                    return Err(e);
                },
            },
            None => file_region,
        };
        let socket_addr = match socket_addr {
            Some(a) => a,
            None => file_addr,
        };
        let cors_origin = match cors_origin {
            Some(o) => o,
            None => file_cors,
        };
        match validate_db_and_cors(&token, &cors_origin) {
            Ok(_) => Ok(
                AppConfig {
                    db: DbConfig { region: region_num, token },
                    server: ServerConfig { socket_addr, cors_origin },
                    resources,
                    enemies,
                },
            ),
            Err(e) => Err(e),
        }
    }

    /// Builds the startup state from the configured categories: one empty,
    /// stale category per configured entity of each kind, the first
    /// connection attempt pending, and the feed and serving settings
    /// handed back for the loops outside this crate.
    pub fn build(self) -> (r: (AppState, DbConfig, ServerConfig))
        ensures
            r.0.wf(),
            r.0.state == ConnectionState::CONNECTING(RETRY_ATTEMPTS),
            r.0.next_wake == 0,
            forall|c: i32|
                r.0.resource@.dom().contains(c) <==> (exists|k: int|
                    0 <= k < self.resources@.len() && (#[trigger] self.resources@[k]).id == c),
            forall|c: i32| #[trigger]
                r.0.resource@.dom().contains(c) ==> r.0.resource@[c] == (CatView {
                    nodes: Map::<u64, Pos>::empty(),
                    stale: true,
                }),
            forall|c: i32|
                r.0.enemy@.dom().contains(c) <==> (exists|k: int|
                    0 <= k < self.enemies@.len() && (#[trigger] self.enemies@[k]).id == c),
            forall|c: i32| #[trigger]
                r.0.enemy@.dom().contains(c) ==> r.0.enemy@[c] == (CatView {
                    nodes: Map::<u64, Pos>::empty(),
                    stale: true,
                }),
            r.1 == self.db,
            r.2 == self.server,
    {
        let AppConfig { db, server, resources, enemies } = self;
        let resource_ids = entity_ids(&resources);
        let enemy_ids = entity_ids(&enemies);
        let state = AppState::new(&resource_ids, &enemy_ids);
        proof {
            assert forall|c: i32|
                state.resource@.dom().contains(c) <==> (exists|k: int|
                    0 <= k < resources@.len() && (#[trigger] resources@[k]).id == c) by {
                if state.resource@.dom().contains(c) {
                    assert(resource_ids@.contains(c));
                    let k = choose|k: int|
                        0 <= k < resource_ids@.len() && resource_ids@[k] == c;
                    assert(resources@[k].id == c);
                }
                if exists|k: int| 0 <= k < resources@.len() && (#[trigger] resources@[k]).id
                    == c {
                    let k = choose|k: int|
                        0 <= k < resources@.len() && (#[trigger] resources@[k]).id == c;
                    assert(resource_ids@[k] == c);
                    assert(resource_ids@.contains(c));
                }
            }
            assert forall|c: i32|
                state.enemy@.dom().contains(c) <==> (exists|k: int|
                    0 <= k < enemies@.len() && (#[trigger] enemies@[k]).id == c) by {
                if state.enemy@.dom().contains(c) {
                    assert(enemy_ids@.contains(c));
                    let k = choose|k: int| 0 <= k < enemy_ids@.len() && enemy_ids@[k] == c;
                    assert(enemies@[k].id == c);
                }
                if exists|k: int| 0 <= k < enemies@.len() && (#[trigger] enemies@[k]).id == c {
                    let k = choose|k: int|
                        0 <= k < enemies@.len() && (#[trigger] enemies@[k]).id == c;
                    assert(enemy_ids@[k] == c);
                    assert(enemy_ids@.contains(c));
                }
            }
        }
        (state, db, server)
    }
}

/// The category identifiers of a list of configured entities, in the
/// configuration's order.
pub fn entity_ids(entities: &Vec<Entity>) -> (r: Vec<i32>)
    ensures
        r@.len() == entities@.len(),
        forall|k: int| 0 <= k < entities@.len() ==> r@[k] == (#[trigger] entities@[k]).id,
{
    let n = entities.len();
    let mut r: Vec<i32> = Vec::new();
    let mut i: usize = 0;
    while i < n
        invariant
            0 <= i <= n,
            n == entities@.len(),
            r@.len() == i,
            forall|k: int| 0 <= k < i ==> r@[k] == (#[trigger] entities@[k]).id,
        decreases n - i,
    {
        r.push(entities[i].id);
        i = i + 1;
    }
    r
}


} // verus!
