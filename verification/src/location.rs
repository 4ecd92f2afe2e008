//! Where a database is stored: a local directory, an S3 bucket, or memory.
use vstd::prelude::*;
use vstd::string::*;

use crate::text::{
    concat2, concat3, from_chars, has_prefix, opt_text, same, skip_char, starts_with, to_chars,
    trim_end_matches, trim_end_matches_text,
};

verus! {

/// What `Url::parse` reads in a text: the host and the path, or the text of the error.
pub uninterp spec fn url_parts(s: Seq<char>) -> Result<
    (Option<Seq<char>>, Seq<char>),
    Seq<char>,
>;

/// `url::Url::parse` with `host_str` and `path` of what it reads, or the error as a text: what it
/// reads depends on the text alone.
#[verifier::external_body]
fn parse_url(s: &str) -> (r: Result<(Option<String>, String), String>)
    ensures
        match r {
            Ok(p) => url_parts(s@) == Ok::<(Option<Seq<char>>, Seq<char>), Seq<char>>(
                (opt_text(p.0), p.1@),
            ),
            Err(e) => url_parts(s@) == Err::<(Option<Seq<char>>, Seq<char>), Seq<char>>(e@),
        },
{
    match url::Url::parse(s) {
        Ok(u) => Ok((u.host_str().map(|h| h.to_string()), u.path().to_string())),
        Err(e) => Err(e.to_string()),
    }
}

/// Configuration for connecting to an S3-compatible object store.
pub struct S3Config {
    /// Endpoint URL (e.g. `http://localhost:9000` for `MinIO`).
    pub endpoint: Option<String>,
    /// AWS region (e.g. `us-east-1`).
    pub region: Option<String>,
    /// Whether to allow plain HTTP (non-TLS) connections.
    pub allow_http: bool,
    /// Local directory for WAL file when using S3 storage.
    /// Defaults to `./potatodb_s3_wal` when not specified.
    pub wal_dir: Option<String>,
}

/// Where a database is stored.
pub enum Location {
    /// A directory of the local file system.
    Local { path: String },
    /// A bucket of an S3-compatible store and the prefix of the object keys in it.
    S3 { bucket: String, prefix: String },
    /// Memory: nothing outlives the process.
    Memory { host: String, prefix: String },
}

/// What a [`Location`] says.
pub enum LocationView {
    Local { path: Seq<char> },
    S3 { bucket: Seq<char>, prefix: Seq<char> },
    Memory { host: Seq<char>, prefix: Seq<char> },
}

impl View for Location {
    type V = LocationView;

    open spec fn view(&self) -> LocationView {
        match self {
            Location::Local { path } => LocationView::Local { path: path@ },
            Location::S3 { bucket, prefix } => LocationView::S3 {
                bucket: bucket@,
                prefix: prefix@,
            },
            Location::Memory { host, prefix } => LocationView::Memory {
                host: host@,
                prefix: prefix@,
            },
        }
    }
}

/// A path without slashes at its ends.
pub open spec fn without_slashes(path: Seq<char>) -> Seq<char> {
    trim_end_matches_text(path.subrange(skip_char(path, '/', 0), path.len() as int), '/')
}

fn trim_slashes(path: &str) -> (r: String)
    ensures
        r@ == without_slashes(path@),
{
    let v = to_chars(path);
    let n: usize = v.len();
    let mut i: usize = 0;
    while i < n && v[i] == '/'
        invariant
            i <= n,
            n == v@.len(),
            skip_char(v@, '/', 0) == skip_char(v@, '/', i as int),
        decreases n - i,
    {
        i += 1;
    }
    trim_end_matches(&from_chars(&v, i, n), '/')
}

/// Where a database with the given address is stored, given how the address reads as a URL.
pub open spec fn located(
    data_url: Seq<char>,
    url: Result<(Option<Seq<char>>, Seq<char>), Seq<char>>,
) -> Result<LocationView, Seq<char>> {
    if has_prefix(data_url, "s3://"@) {
        match url {
            Err(e) => Err(e),
            Ok(p) => match p.0 {
                None => Err("Missing bucket name in S3 URL"@),
                Some(bucket) => Ok(LocationView::S3 { bucket, prefix: without_slashes(p.1) }),
            },
        }
    } else if data_url == ":memory:"@ || data_url == "memory"@ {
        Ok(LocationView::Memory { host: "potatodb"@, prefix: Seq::empty() })
    } else if has_prefix(data_url, "memory://"@) {
        match url {
            Err(e) => Err(e),
            Ok(p) => Ok(
                LocationView::Memory {
                    host: match p.0 {
                        Some(h) => if h.len() == 0 {
                            "potatodb"@
                        } else {
                            h
                        },
                        None => "potatodb"@,
                    },
                    prefix: without_slashes(p.1),
                },
            ),
        }
    } else {
        Ok(LocationView::Local { path: data_url })
    }
}

/// How an address reads as a URL.
pub open spec fn url_result(
    r: Result<(Option<String>, String), String>,
) -> Result<(Option<Seq<char>>, Seq<char>), Seq<char>> {
    match r {
        Ok(p) => Ok((opt_text(p.0), p.1@)),
        Err(e) => Err(e@),
    }
}

/// Where a database with the given address is stored, given how the address reads as a URL.
pub fn locate_with(data_url: &str, url: Result<(Option<String>, String), String>) -> (r: Result<
    Location,
    String,
>)
    ensures
        match r {
            Ok(l) => located(data_url@, url_result(url)) == Ok::<LocationView, Seq<char>>(l@),
            Err(e) => located(data_url@, url_result(url)) == Err::<LocationView, Seq<char>>(e@),
        },
{
    if starts_with(data_url, "s3://") {
        match url {
            Err(e) => Err(e),
            Ok((host, path)) => match host {
                None => Err("Missing bucket name in S3 URL".to_owned()),
                Some(bucket) => Ok(Location::S3 { bucket, prefix: trim_slashes(&path) }),
            },
        }
    } else if same(data_url, ":memory:") || same(data_url, "memory") {
        Ok(Location::Memory { host: "potatodb".to_owned(), prefix: String::new() })
    } else if starts_with(data_url, "memory://") {
        match url {
            Err(e) => Err(e),
            Ok((host, path)) => {
                let host = match host {
                    Some(h) => if h.as_str().is_empty() {
                        "potatodb".to_owned()
                    } else {
                        h
                    },
                    None => "potatodb".to_owned(),
                };
                Ok(Location::Memory { host, prefix: trim_slashes(&path) })
            },
        }
    } else {
        Ok(Location::Local { path: data_url.to_owned() })
    }
}

/// Where a database with the given address is stored: `s3://bucket/prefix`, `:memory:`, `memory` or
/// `memory://host/prefix`, or else a local path.
pub fn locate(data_url: &str) -> (r: Result<Location, String>)
    ensures
        match r {
            Ok(l) => located(data_url@, url_parts(data_url@)) == Ok::<LocationView, Seq<char>>(l@),
            Err(e) => located(data_url@, url_parts(data_url@)) == Err::<LocationView, Seq<char>>(
                e@,
            ),
        },
{
    let url = parse_url(data_url);
    locate_with(data_url, url)
}

/// `base` and `rest` with a slash between them, or `base` alone where `rest` is blank.
pub open spec fn with_path(base: Seq<char>, rest: Seq<char>) -> Seq<char> {
    if rest.len() == 0 {
        base
    } else {
        base + "/"@ + rest
    }
}

fn join_path(base: &str, rest: &str) -> (r: String)
    ensures
        r@ == with_path(base@, rest@),
{
    if rest.is_empty() {
        base.to_owned()
    } else {
        concat3(base, "/", rest)
    }
}

/// The normal form of an address.
pub open spec fn normal_url(l: LocationView) -> Seq<char> {
    match l {
        LocationView::Local { path } => path,
        LocationView::S3 { bucket, prefix } => with_path("s3://"@ + bucket, prefix),
        LocationView::Memory { host, prefix } => with_path("memory://"@ + host, prefix),
    }
}

/// The prefix of the object keys of a database.
pub open spec fn key_prefix(l: LocationView) -> Seq<char> {
    match l {
        LocationView::Local { path } => Seq::empty(),
        LocationView::S3 { bucket, prefix } => prefix,
        LocationView::Memory { host, prefix } => prefix,
    }
}

/// The key of an object of a database: its name behind the prefix of the database.
pub open spec fn object_key(l: LocationView, name: Seq<char>) -> Seq<char> {
    if key_prefix(l).len() == 0 {
        name
    } else {
        key_prefix(l) + "/"@ + name
    }
}

impl Location {
    /// The normal form of the address.
    pub fn data_url(&self) -> (r: String)
        ensures
            r@ == normal_url(self@),
    {
        match self {
            Location::Local { path } => path.clone(),
            Location::S3 { bucket, prefix } => join_path(&concat2("s3://", bucket), prefix),
            Location::Memory { host, prefix } => join_path(&concat2("memory://", host), prefix),
        }
    }

    /// Whether the database is kept in memory alone.
    pub fn is_in_memory(&self) -> (r: bool)
        ensures
            r == (self@ is Memory),
    {
        match self {
            Location::Memory { .. } => true,
            _ => false,
        }
    }

    /// Whether the database is kept in an S3 bucket.
    pub fn is_s3(&self) -> (r: bool)
        ensures
            r == (self@ is S3),
    {
        match self {
            Location::S3 { .. } => true,
            _ => false,
        }
    }

    /// The key of an object of the database: `catalog.json`, or a table's name.
    pub fn object_key(&self, name: &str) -> (r: String)
        ensures
            r@ == object_key(self@, name@),
    {
        let prefix = match self {
            Location::Local { .. } => String::new(),
            Location::S3 { bucket, prefix } => prefix.clone(),
            Location::Memory { host, prefix } => prefix.clone(),
        };
        if prefix.as_str().is_empty() {
            name.to_owned()
        } else {
            concat3(&prefix, "/", name)
        }
    }

    /// The storage location of a table: its name behind the address of the database.
    pub fn table_url(&self, table_name: &str) -> (r: String)
        ensures
            r@ == trim_end_matches_text(normal_url(self@), '/') + "/"@ + table_name@,
    {
        concat3(&trim_end_matches(&self.data_url(), '/'), "/", table_name)
    }

    /// The local directory of the write-ahead log: the database's own directory, or for S3 the
    /// configured one. A database in memory has no log.
    pub fn wal_dir(&self, config: &Option<S3Config>) -> (r: Option<String>)
        ensures
            opt_text(r) == match self@ {
                LocationView::Local { path } => Some(path),
                LocationView::S3 { .. } => Some(
                    match config {
                        Some(c) => match opt_text(c.wal_dir) {
                            Some(d) => d,
                            None => "./potatodb_s3_wal"@,
                        },
                        None => "./potatodb_s3_wal"@,
                    },
                ),
                LocationView::Memory { .. } => None,
            },
    {
        match self {
            Location::Local { path } => Some(path.clone()),
            Location::S3 { .. } => match config {
                Some(c) => match &c.wal_dir {
                    Some(d) => Some(d.clone()),
                    None => Some("./potatodb_s3_wal".to_owned()),
                },
                None => Some("./potatodb_s3_wal".to_owned()),
            },
            Location::Memory { .. } => None,
        }
    }

    /// The file of the change log, which only a local database has.
    pub fn cdc_log_path(&self) -> (r: Option<String>)
        ensures
            opt_text(r) == match self@ {
                LocationView::Local { path } => Some(path + "/_cdc_log.jsonl"@),
                _ => None,
            },
    {
        match self {
            Location::Local { path } => Some(concat2(path, "/_cdc_log.jsonl")),
            _ => None,
        }
    }

    /// Refuses to back up a database that is not in a local directory.
    pub fn check_backup(&self) -> (r: Result<(), String>)
        ensures
            match self@ {
                LocationView::Local { .. } => r is Ok,
                LocationView::S3 { .. } => r matches Err(e) && e@
                    == "Backup is only supported for local data directories. For S3 databases, recovery is supported via WAL replay on startup."@,
                LocationView::Memory { .. } => r matches Err(e) && e@
                    == "Backup is only supported for local data directories, not for in-memory databases."@,
            },
    {
        match self {
            Location::Local { .. } => Ok(()),
            Location::S3 { .. } => Err(
                "Backup is only supported for local data directories. For S3 databases, recovery is supported via WAL replay on startup.".to_owned(),
            ),
            Location::Memory { .. } => Err(
                "Backup is only supported for local data directories, not for in-memory databases.".to_owned(),
            ),
        }
    }

    /// Refuses to restore a database that is not in a local directory.
    pub fn check_restore(&self) -> (r: Result<(), String>)
        ensures
            match self@ {
                LocationView::Local { .. } => r is Ok,
                LocationView::S3 { .. } => r matches Err(e) && e@
                    == "Restore is only supported for local data directories. For S3 databases, recovery is supported via WAL replay on startup."@,
                LocationView::Memory { .. } => r matches Err(e) && e@
                    == "Restore is only supported for local data directories, not for in-memory databases."@,
            },
    {
        match self {
            Location::Local { .. } => Ok(()),
            Location::S3 { .. } => Err(
                "Restore is only supported for local data directories. For S3 databases, recovery is supported via WAL replay on startup.".to_owned(),
            ),
            Location::Memory { .. } => Err(
                "Restore is only supported for local data directories, not for in-memory databases.".to_owned(),
            ),
        }
    }
}

/// Each object lies under the prefix of its place, and different objects have different keys.
pub proof fn law_keys_lie_under_the_prefix(l: LocationView, a: Seq<char>, b: Seq<char>)
    ensures
        has_prefix(object_key(l, a), key_prefix(l)),
        object_key(l, a) == object_key(l, b) ==> a == b,
        key_prefix(l).len() == 0 ==> object_key(l, a) == a,
        l is Local ==> object_key(l, a) == a,
{
    let p = key_prefix(l);
    assert(object_key(l, a).subrange(0, p.len() as int) =~= p);
    reveal_strlit("/");
    if p.len() > 0 && object_key(l, a) == object_key(l, b) {
        let k = p.len() as int + 1;
        assert(object_key(l, a).len() == k + a.len() && object_key(l, b).len() == k + b.len());
        assert(object_key(l, a).subrange(k, k + a.len()) =~= a);
        assert(object_key(l, b).subrange(k, k + b.len()) =~= b);
    }
}

/// A place in memory that is not named has the name of the engine, and a path that is no URL is a
/// directory.
pub proof fn law_plain_places(
    data_url: Seq<char>,
    url: Result<(Option<Seq<char>>, Seq<char>), Seq<char>>,
)
    ensures
        data_url == ":memory:"@ || data_url == "memory"@ ==> located(data_url, url) == Ok::<
            LocationView,
            Seq<char>,
        >(LocationView::Memory { host: "potatodb"@, prefix: Seq::empty() }),
        !has_prefix(data_url, "s3://"@) && !has_prefix(data_url, "memory://"@) && data_url
            != ":memory:"@ && data_url != "memory"@ ==> located(data_url, url) == Ok::<
            LocationView,
            Seq<char>,
        >(LocationView::Local { path: data_url }),
        has_prefix(data_url, "s3://"@) && url is Ok && url->Ok_0.0 is None ==> located(
            data_url,
            url,
        ) is Err,
        has_prefix(data_url, "s3://"@) && url is Ok && url->Ok_0.0 is Some ==> located(
            data_url,
            url,
        ) == Ok::<LocationView, Seq<char>>(
            LocationView::S3 {
                bucket: url->Ok_0.0->0,
                prefix: without_slashes(url->Ok_0.1),
            },
        ),
{
    reveal_strlit("s3://");
    reveal_strlit(":memory:");
    reveal_strlit("memory");
    assert("s3://"@[0] == 's' && ":memory:"@[0] == ':' && "memory"@[0] == 'm');
    if has_prefix(data_url, "s3://"@) {
        assert(data_url[0] == 's');
    }
}

/// The address of a place names the sort of the place, its bucket or host, and its prefix.
pub proof fn law_addresses(bucket: Seq<char>, prefix: Seq<char>, path: Seq<char>)
    ensures
        normal_url(LocationView::Local { path }) == path,
        prefix.len() == 0 ==> normal_url(LocationView::S3 { bucket, prefix }) == "s3://"@ + bucket,
        prefix.len() > 0 ==> normal_url(LocationView::S3 { bucket, prefix }) == "s3://"@ + bucket
            + "/"@ + prefix,
        prefix.len() == 0 ==> normal_url(LocationView::Memory { host: bucket, prefix })
            == "memory://"@ + bucket,
        prefix.len() > 0 ==> normal_url(LocationView::Memory { host: bucket, prefix })
            == "memory://"@ + bucket + "/"@ + prefix,
{
}

} // verus!
