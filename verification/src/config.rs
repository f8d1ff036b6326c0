//! The relay's service configuration and its conversion into services with
//! generated identifiers.
use vstd::prelude::*;
use crate::text::{decimal, push_char, push_decimal, push_range};

verus! {

/// Configuration of the relay: the RTSP services it knows.
#[derive(Debug)]
pub struct Config {
    pub services: Vec<ServiceConfig>,
}

/// A configured service.
#[derive(Debug)]
pub struct ServiceConfig {
    pub svc_type: String,
    pub ip: String,
    pub port: u16,
    pub path: Option<String>,
    pub auth: Option<AuthConfig>,
}

/// Configured authentication.
#[derive(Debug)]
pub struct AuthConfig {
    pub auth_type: String,
    pub username: String,
    pub password: String,
}

/// Authentication of a service.
#[derive(Debug)]
pub struct Auth {
    pub auth_type: String,
    pub username: String,
    pub password: String,
}

/// A service as the relay uses it.
#[derive(Debug)]
pub struct Service {
    pub svc_type: String,
    pub ip: String,
    pub port: u16,
    pub path: String,
    pub auth: Option<Auth>,
}

/// Why a relay configuration was refused.
#[derive(Debug, Clone, Copy, PartialEq, Eq)]
pub enum ConfigError {
    /// The configuration lists no service.
    NoServices,
}

/// `s` is the service made from configuration `c`: same fields, the path
/// defaulting to `/`, the authentication copied.
pub open spec fn converted(c: ServiceConfig, s: Service) -> bool {
    &&& s.svc_type == c.svc_type
    &&& s.ip == c.ip
    &&& s.port == c.port
    &&& s.path@ == (match c.path {
        Some(p) => p@,
        None => seq!['/'],
    })
    &&& match (c.auth, s.auth) {
        (None, None) => true,
        (Some(a), Some(b)) => b.auth_type == a.auth_type && b.username == a.username && b.password
            == a.password,
        _ => false,
    }
}

/// The identifier generated for the service at position `index`: its type,
/// a dash, and its one-based position.
pub open spec fn generated_id(svc_type: Seq<char>, index: int) -> Seq<char> {
    svc_type + seq!['-'] + decimal((index + 1) as nat)
}

impl Service {
    /// The service made from a configuration entry.
    pub fn from_config(config: &ServiceConfig) -> (res: Service)
        ensures
            converted(*config, res),
    {
        let path = match &config.path {
            Some(p) => p.clone(),
            None => {
                let mut s = String::new();
                push_char(&mut s, '/');
                s
            },
        };
        let auth = match &config.auth {
            Some(a) => Some(
                Auth {
                    auth_type: a.auth_type.clone(),
                    username: a.username.clone(),
                    password: a.password.clone(),
                },
            ),
            None => None,
        };
        Service {
            svc_type: config.svc_type.clone(),
            ip: config.ip.clone(),
            port: config.port,
            path,
            auth,
        }
    }
}

/// The configured services with generated identifiers, in order.
pub fn config_to_services(config: Config) -> (res: Vec<(String, Service)>)
    ensures
        res@.len() == config.services@.len(),
        forall|i: int|
            0 <= i < res@.len() ==> #[trigger] res@[i].0@ == generated_id(
                config.services@[i].svc_type@,
                i,
            ) && converted(config.services@[i], res@[i].1),
{
    let mut res: Vec<(String, Service)> = Vec::new();
    let mut index: usize = 0;
    while index < config.services.len()
        invariant
            0 <= index <= config.services@.len(),
            res@.len() == index,
            forall|i: int|
                0 <= i < index ==> #[trigger] res@[i].0@ == generated_id(
                    config.services@[i].svc_type@,
                    i,
                ) && converted(config.services@[i], res@[i].1),
        decreases config.services.len() - index,
    {
        let sc = &config.services[index];
        let mut id = String::new();
        let ty = crate::text::chars_of(sc.svc_type.as_str());
        push_range(&mut id, ty.as_slice(), 0, ty.len());
        push_char(&mut id, '-');
        push_decimal(&mut id, (index as u64) + 1);
        assert(ty@.subrange(0, ty@.len() as int) =~= sc.svc_type@);
        assert(id@ =~= generated_id(sc.svc_type@, index as int));
        res.push((id, Service::from_config(sc)));
        index = index + 1;
    }
    res
}

/// Accepts a relay configuration that lists at least one service.
pub fn validate_config(config: Config) -> (res: Result<Config, ConfigError>)
    ensures
        config.services@.len() == 0 <==> res == Err::<Config, ConfigError>(ConfigError::NoServices),
        config.services@.len() > 0 <==> res == Ok::<Config, ConfigError>(config),
{
    if config.services.len() == 0 {
        return Err(ConfigError::NoServices);
    }
    Ok(config)
}

} // verus!
