//! Configuration of the service: network address, database connection,
//! storage limits, and video handling. Defaults match the shipped
//! configuration; validation enforces the non-zero limits the engine
//! depends on.

use vstd::prelude::*;
use crate::error::ServerError;

verus! {

#[derive(Clone)]
pub struct Config {
    pub server: ServerConfig,
    pub database: DatabaseConfig,
    pub storage: StorageConfig,
    pub video: VideoConfig,
}

#[derive(Clone)]
pub struct ServerConfig {
    pub address: String,
    pub port: u16,
    pub max_body_size: u64,
    pub request_timeout: u64,
}

#[derive(Clone)]
pub struct DatabaseConfig {
    pub url: String,
    pub max_connections: u32,
}

#[derive(Clone)]
pub struct StorageConfig {
    pub path: String,
    pub upload_dir: String,
    pub max_file_size: u64,
    pub chunk_size: usize,
}

#[derive(Clone)]
pub struct VideoConfig {
    pub thumbnail_size: String,
    pub supported_formats: Vec<String>,
}

/// The decimal digit for a value below ten.
pub open spec fn digit_char(d: int) -> char
    recommends
        0 <= d < 10,
{
    if d == 0 { '0' }
    else if d == 1 { '1' }
    else if d == 2 { '2' }
    else if d == 3 { '3' }
    else if d == 4 { '4' }
    else if d == 5 { '5' }
    else if d == 6 { '6' }
    else if d == 7 { '7' }
    else if d == 8 { '8' }
    else { '9' }
}

/// The decimal rendering of a number, most significant digit first, with no
/// leading zeros (a lone zero for the number zero).
pub open spec fn dec_rep(n: nat) -> Seq<char>
    decreases n,
{
    if n < 10 {
        seq![digit_char(n as int)]
    } else {
        dec_rep(n / 10).push(digit_char((n % 10) as int))
    }
}

fn digit_str(d: u64) -> (r: &'static str)
    requires
        d < 10,
    ensures
        r@ == seq![digit_char(d as int)],
{
    let r = match d {
        0u64 => "0",
        1u64 => "1",
        2u64 => "2",
        3u64 => "3",
        4u64 => "4",
        5u64 => "5",
        6u64 => "6",
        7u64 => "7",
        8u64 => "8",
        _ => "9",
    };
    proof {
        reveal_strlit("0");
        reveal_strlit("1");
        reveal_strlit("2");
        reveal_strlit("3");
        reveal_strlit("4");
        reveal_strlit("5");
        reveal_strlit("6");
        reveal_strlit("7");
        reveal_strlit("8");
        reveal_strlit("9");
        assert(r@ =~= seq![digit_char(d as int)]);
    }
    r
}

/// Renders a number in decimal, for building addresses and messages without
/// a formatting macro.
pub fn u64_to_dec(n: u64) -> (r: String)
    ensures
        r@ == dec_rep(n as nat),
    decreases n,
{
    if n < 10 {
        String::from_str(digit_str(n))
    } else {
        let mut s = u64_to_dec(n / 10);
        s.append(digit_str(n % 10));
        proof {
            assert(s@ =~= dec_rep(n as nat));
        }
        s
    }
}

impl Config {
    /// The socket address the server should listen on, as `address:port`.
    pub fn server_address(&self) -> (r: String)
        ensures
            r@ == self.server.address@ + seq![':'] + dec_rep(self.server.port as nat),
    {
        let mut s = self.server.address.clone();
        s.append(":");
        let p = u64_to_dec(self.server.port as u64);
        s.append(p.as_str());
        proof {
            reveal_strlit(":");
            assert(s@ =~= self.server.address@ + seq![':'] + dec_rep(self.server.port as nat));
        }
        s
    }

    /// Checks the limits the engine depends on: the port and every size and
    /// timeout knob must be non-zero. Succeeds exactly on such
    /// configurations.
    pub fn validate(&self) -> (r: Result<(), ServerError>)
        ensures
            r is Ok <==> (self.server.port != 0 && self.storage.max_file_size != 0
                && self.storage.chunk_size != 0 && self.server.request_timeout != 0),
            r is Err ==> r->Err_0 is Validation,
    {
        if self.server.port == 0 {
            Err(ServerError::validation(String::from_str("server port must not be zero")))
        } else if self.storage.max_file_size == 0 {
            Err(ServerError::validation(String::from_str("maximum file size must not be zero")))
        } else if self.storage.chunk_size == 0 {
            Err(ServerError::validation(String::from_str("chunk size must not be zero")))
        } else if self.server.request_timeout == 0 {
            Err(ServerError::validation(String::from_str("request timeout must not be zero")))
        } else {
            Ok(())
        }
    }
}

impl DatabaseConfig {
    /// The connection string for the metadata database.
    pub fn database_url(&self) -> (r: String)
        ensures
            r@ == self.url@,
    {
        self.url.clone()
    }
}

pub fn default_address() -> (r: String)
    ensures
        r@ == "0.0.0.0"@,
{
    String::from_str("0.0.0.0")
}

pub fn default_port() -> (r: u16)
    ensures
        r == 3000u16,
{
    3000
}

pub fn default_max_body_size() -> (r: u64)
    ensures
        r == 10737418240u64,
{
    10 * 1024 * 1024 * 1024
}

pub fn default_request_timeout() -> (r: u64)
    ensures
        r == 300u64,
{
    300
}

pub fn default_database_url() -> (r: String)
    ensures
        r@ == "sqlite:./files.db"@,
{
    String::from_str("sqlite:./files.db")
}

pub fn default_max_connections() -> (r: u32)
    ensures
        r == 10u32,
{
    10
}

pub fn default_storage_path() -> (r: String)
    ensures
        r@ == "./storage"@,
{
    String::from_str("./storage")
}

pub fn default_max_file_size() -> (r: u64)
    ensures
        r == 10737418240u64,
{
    10 * 1024 * 1024 * 1024
}

pub fn default_chunk_size() -> (r: usize)
    ensures
        r == 8388608usize,
{
    8 * 1024 * 1024
}

pub fn default_thumbnail_size() -> (r: String)
    ensures
        r@ == "320x240"@,
{
    String::from_str("320x240")
}

pub fn default_supported_formats() -> (r: Vec<String>)
    ensures
        r@.len() == 7,
        r@[0]@ == "mp4"@,
        r@[1]@ == "avi"@,
        r@[2]@ == "mkv"@,
        r@[3]@ == "mov"@,
        r@[4]@ == "wmv"@,
        r@[5]@ == "flv"@,
        r@[6]@ == "webm"@,
{
    let mut v: Vec<String> = Vec::new();
    v.push(String::from_str("mp4"));
    v.push(String::from_str("avi"));
    v.push(String::from_str("mkv"));
    v.push(String::from_str("mov"));
    v.push(String::from_str("wmv"));
    v.push(String::from_str("flv"));
    v.push(String::from_str("webm"));
    v
}

impl Default for Config {
    fn default() -> (r: Self)
        ensures
            r.server.address@ == "0.0.0.0"@,
            r.server.port == 3000,
            r.server.max_body_size == 10737418240u64,
            r.server.request_timeout == 300,
            r.database.url@ == "sqlite:./files.db"@,
            r.database.max_connections == 10,
            r.storage.path@ == "./storage"@,
            r.storage.upload_dir@ == "./storage"@,
            r.storage.max_file_size == 10737418240u64,
            r.storage.chunk_size == 8388608usize,
    {
        Config {
            server: ServerConfig::default(),
            database: DatabaseConfig::default(),
            storage: StorageConfig::default(),
            video: VideoConfig::default(),
        }
    }
}

impl Default for ServerConfig {
    fn default() -> (r: Self)
        ensures
            r.address@ == "0.0.0.0"@,
            r.port == 3000,
            r.max_body_size == 10737418240u64,
            r.request_timeout == 300,
    {
        ServerConfig {
            address: default_address(),
            port: default_port(),
            max_body_size: default_max_body_size(),
            request_timeout: default_request_timeout(),
        }
    }
}

impl Default for DatabaseConfig {
    fn default() -> (r: Self)
        ensures
            r.url@ == "sqlite:./files.db"@,
            r.max_connections == 10,
    {
        DatabaseConfig { url: default_database_url(), max_connections: default_max_connections() }
    }
}

impl Default for StorageConfig {
    fn default() -> (r: Self)
        ensures
            r.path@ == "./storage"@,
            r.upload_dir@ == "./storage"@,
            r.max_file_size == 10737418240u64,
            r.chunk_size == 8388608usize,
    {
        StorageConfig {
            path: default_storage_path(),
            upload_dir: default_storage_path(),
            max_file_size: default_max_file_size(),
            chunk_size: default_chunk_size(),
        }
    }
}

impl Default for VideoConfig {
    fn default() -> (r: Self)
        ensures
            r.thumbnail_size@ == "320x240"@,
            r.supported_formats@.len() == 7,
    {
        VideoConfig {
            thumbnail_size: default_thumbnail_size(),
            supported_formats: default_supported_formats(),
        }
    }
}

} // verus!
