//! Service configuration. The cache and concurrency knobs are part of the
//! configuration surface but are consumed by no component here.

use vstd::prelude::*;
use vstd::string::*;

verus! {

pub struct Config {
    pub host: String,
    pub port: u16,
    pub m3u_path: String,
    pub cache_enabled: bool,
    pub cache_ttl_playlist: u64,
    pub cache_ttl_segment: u64,
    pub request_timeout: u64,
    pub max_concurrent: usize,
}

pub fn default_host() -> (r: String)
    ensures
        r@ == "0.0.0.0"@,
{
    String::from_str("0.0.0.0")
}

pub fn default_port() -> (r: u16)
    ensures
        r == 8006,
{
    8006
}

pub fn default_m3u_path() -> (r: String)
    ensures
        r@ == "./Gather.m3u"@,
{
    String::from_str("./Gather.m3u")
}

pub fn default_cache_enabled() -> (r: bool)
    ensures
        r == true,
{
    true
}

pub fn default_cache_ttl_playlist() -> (r: u64)
    ensures
        r == 300,
{
    300
}

pub fn default_cache_ttl_segment() -> (r: u64)
    ensures
        r == 600,
{
    600
}

pub fn default_request_timeout() -> (r: u64)
    ensures
        r == 30,
{
    30
}

pub fn default_max_concurrent() -> (r: usize)
    ensures
        r == 100,
{
    100
}

impl Default for Config {
    fn default() -> (r: Self)
        ensures
            r.host@ == "0.0.0.0"@,
            r.port == 8006,
            r.m3u_path@ == "./Gather.m3u"@,
            r.cache_enabled == true,
            r.cache_ttl_playlist == 300,
            r.cache_ttl_segment == 600,
            r.request_timeout == 30,
            r.max_concurrent == 100,
    {
        Config {
            host: default_host(),
            port: default_port(),
            m3u_path: default_m3u_path(),
            cache_enabled: default_cache_enabled(),
            cache_ttl_playlist: default_cache_ttl_playlist(),
            cache_ttl_segment: default_cache_ttl_segment(),
            request_timeout: default_request_timeout(),
            max_concurrent: default_max_concurrent(),
        }
    }
}

} // verus!
