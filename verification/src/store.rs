//! Store resolution: a store URL string is parsed once and dispatched to
//! a backend description — local filesystem, S3 or GCS bucket, or a
//! plain or S3-compatible HTTP endpoint.  The description carries the
//! base path prefixed onto every read and the decompression flag; the
//! backend client itself is built outside this library.

use vstd::prelude::*;
use vstd::string::StrSliceExecFns;
use vstd::string::StringExecFns;
use crate::digits::{plain_decimal, plain_u16};
use crate::urls::{parse_url, url_host_of, url_is_relative, url_parses, url_path_of, url_port_of,
    url_scheme_of, UrlParseOutcome};

verus! {

/// The backend a store URL resolves to.
pub enum StoreKind {
    /// A local filesystem root: a `file://` URL or a bare path.
    Local { prefix: String },
    /// An S3 bucket addressed by the default endpoint.
    S3 { bucket: String },
    /// A Google Cloud Storage bucket.
    Gcs { bucket: String },
    /// A plain HTTP(S) endpoint serving chunk files by path.
    Http { endpoint: String, allow_http: bool },
    /// An HTTP(S) endpoint speaking the S3 dialect; the bucket is the
    /// first segment of the URL path.
    S3Compatible { endpoint: String, bucket: String, allow_http: bool },
}

/// A resolved store: the backend, the base path prefixed onto every
/// chunk read, and whether fetched chunks are to be decompressed.
pub struct Store {
    pub kind: StoreKind,
    pub base: String,
    pub decompress: bool,
}

/// Why a store URL was rejected at construction.
#[derive(Clone, Copy, Debug, PartialEq, Eq, Structural)]
pub enum ConfigError {
    /// The string parses as neither an absolute URL nor a relative path,
    /// or an HTTP URL misses a usable port.
    InvalidUrl,
    /// An HTTP(S) URL without a host.
    MissingHost,
    /// An `s3://` or `gs://` URL without a bucket.
    MissingBucket,
    /// A scheme this library does not recognize.
    UnsupportedScheme,
}

/// Mathematical shape of a resolved backend.
#[verifier::ext_equal]
pub ghost enum StoreKindModel {
    Local { prefix: Seq<char> },
    S3 { bucket: Seq<char> },
    Gcs { bucket: Seq<char> },
    Http { endpoint: Seq<char>, allow_http: bool },
    S3Compatible { endpoint: Seq<char>, bucket: Seq<char>, allow_http: bool },
}

/// Mathematical shape of a resolved store.
#[verifier::ext_equal]
pub ghost struct StoreModel {
    pub kind: StoreKindModel,
    pub base: Seq<char>,
    pub decompress: bool,
}

impl View for StoreKind {
    type V = StoreKindModel;

    open spec fn view(&self) -> StoreKindModel {
        match self {
            StoreKind::Local { prefix } => StoreKindModel::Local { prefix: prefix@ },
            StoreKind::S3 { bucket } => StoreKindModel::S3 { bucket: bucket@ },
            StoreKind::Gcs { bucket } => StoreKindModel::Gcs { bucket: bucket@ },
            StoreKind::Http { endpoint, allow_http } => StoreKindModel::Http {
                endpoint: endpoint@,
                allow_http: *allow_http,
            },
            StoreKind::S3Compatible { endpoint, bucket, allow_http } => StoreKindModel::S3Compatible {
                endpoint: endpoint@,
                bucket: bucket@,
                allow_http: *allow_http,
            },
        }
    }
}

impl View for Store {
    type V = StoreModel;

    open spec fn view(&self) -> StoreModel {
        StoreModel { kind: self.kind@, base: self.base@, decompress: self.decompress }
    }
}

/// `path` with one leading '/' removed, as the bucket sub-path is
/// written without it.
pub open spec fn strip_one_slash(path: Seq<char>) -> Seq<char> {
    if path.len() > 0 && path[0] == '/' {
        path.subrange(1, path.len() as int)
    } else {
        path
    }
}

/// The leading characters of `s` up to its first '/', exclusive.
pub open spec fn up_to_slash(s: Seq<char>) -> Seq<char>
    decreases s.len(),
{
    if s.len() == 0 || s[0] == '/' {
        Seq::empty()
    } else {
        seq![s[0]] + up_to_slash(s.drop_first())
    }
}

/// The first segment of a URL path: what stands between the leading
/// '/' and the next one.
pub open spec fn first_path_segment(path: Seq<char>) -> Seq<char> {
    up_to_slash(strip_one_slash(path))
}

/// `path` with every leading '/' removed.
pub open spec fn trim_slashes(path: Seq<char>) -> Seq<char>
    decreases path.len(),
{
    if path.len() > 0 && path[0] == '/' {
        trim_slashes(path.subrange(1, path.len() as int))
    } else {
        path
    }
}

/// The endpoint handed to an HTTP backend: scheme, host and port.
pub open spec fn endpoint_model(scheme: Seq<char>, host: Seq<char>, port: u16) -> Seq<char> {
    scheme + "://"@ + host + ":"@ + plain_decimal(port as nat)
}

/// Where a parsed absolute store URL resolves to, over the parts the
/// URL parser reports: the whole scheme dispatch of store construction.
pub open spec fn resolve_model(
    scheme: Seq<char>,
    host: Option<Seq<char>>,
    port: Option<u16>,
    path: Seq<char>,
    decompress: bool,
    s3_compatible: bool,
) -> Result<StoreModel, ConfigError> {
    if scheme == "http"@ || scheme == "https"@ {
        match host {
            Some(h) => match port {
                Some(p) => {
                    let endpoint = endpoint_model(scheme, h, p);
                    let allow_http = scheme == "http"@;
                    if s3_compatible {
                        Ok(
                            StoreModel {
                                kind: StoreKindModel::S3Compatible {
                                    endpoint,
                                    bucket: first_path_segment(path),
                                    allow_http,
                                },
                                base: Seq::empty(),
                                decompress,
                            },
                        )
                    } else {
                        Ok(
                            StoreModel {
                                kind: StoreKindModel::Http { endpoint, allow_http },
                                base: Seq::empty(),
                                decompress,
                            },
                        )
                    }
                },
                None => Err(ConfigError::InvalidUrl),
            },
            None => Err(ConfigError::MissingHost),
        }
    } else if scheme == "s3"@ {
        match host {
            Some(h) => Ok(
                StoreModel {
                    kind: StoreKindModel::S3 { bucket: h },
                    base: strip_one_slash(path),
                    decompress,
                },
            ),
            None => Err(ConfigError::MissingBucket),
        }
    } else if scheme == "gs"@ {
        match host {
            Some(h) => Ok(
                StoreModel {
                    kind: StoreKindModel::Gcs { bucket: h },
                    base: strip_one_slash(path),
                    decompress,
                },
            ),
            None => Err(ConfigError::MissingBucket),
        }
    } else if scheme == "file"@ {
        Ok(
            StoreModel {
                kind: StoreKindModel::Local { prefix: path },
                base: Seq::empty(),
                decompress,
            },
        )
    } else {
        Err(ConfigError::UnsupportedScheme)
    }
}

/// The result of store resolution, viewed mathematically.
pub open spec fn resolved_model(r: Result<Store, ConfigError>) -> Result<StoreModel, ConfigError> {
    match r {
        Ok(s) => Ok(s@),
        Err(e) => Err(e),
    }
}

/// Whether the compatibility hint selects the S3 dialect.
pub open spec fn hints_s3(compatible: Option<String>) -> bool {
    match compatible {
        Some(c) => c@ == "s3"@,
        None => false,
    }
}

/// String content equality against a literal.
fn string_is(a: &String, b: &str) -> (r: bool)
    ensures
        r == (a@ == b@),
{
    let bs: String = b.to_owned();
    *a == bs
}

/// `path` with one leading '/' removed.
fn strip_one_slash_str(path: &str) -> (r: String)
    ensures
        r@ == strip_one_slash(path@),
{
    let l = path.unicode_len();
    if l > 0 && path.get_char(0) == '/' {
        path.substring_char(1, l).to_owned()
    } else {
        path.to_owned()
    }
}

/// `up_to_slash` of a sequence whose slash-free prefix is known.
proof fn lemma_up_to_slash(s: Seq<char>, m: int)
    requires
        0 <= m <= s.len(),
        forall|p: int| 0 <= p < m ==> s[p] != '/',
        m < s.len() ==> s[m] == '/',
    ensures
        up_to_slash(s) == s.subrange(0, m),
    decreases m,
{
    if m == 0 {
        assert(up_to_slash(s) =~= s.subrange(0, 0));
    } else {
        lemma_up_to_slash(s.drop_first(), m - 1);
        assert(s.drop_first().subrange(0, m - 1) =~= s.subrange(1, m));
        assert(up_to_slash(s) =~= s.subrange(0, m));
    }
}

/// The first segment of a URL path.
fn first_segment_str(path: &str) -> (r: String)
    ensures
        r@ == first_path_segment(path@),
{
    let l = path.unicode_len();
    let start: usize = if l > 0 && path.get_char(0) == '/' {
        1
    } else {
        0
    };
    let mut j: usize = start;
    while j < l && path.get_char(j) != '/'
        invariant
            start <= j <= l,
            l == path@.len(),
            start == (if l > 0 && path@[0] == '/' {
                1int
            } else {
                0int
            }),
            forall|q: int| start <= q < j ==> path@[q] != '/',
        decreases l - j,
    {
        j = j + 1;
    }
    proof {
        let t = strip_one_slash(path@);
        assert(t =~= path@.subrange(start as int, l as int));
        lemma_up_to_slash(t, j - start);
        assert(t.subrange(0, j - start) =~= path@.subrange(start as int, j as int));
    }
    path.substring_char(start, j).to_owned()
}

/// `path` with every leading '/' removed.
fn trim_slashes_str(path: &str) -> (r: String)
    ensures
        r@ == trim_slashes(path@),
{
    let l = path.unicode_len();
    proof {
        assert(path@.subrange(0, l as int) =~= path@);
    }
    let mut i: usize = 0;
    while i < l && path.get_char(i) == '/'
        invariant
            i <= l,
            l == path@.len(),
            trim_slashes(path@) == trim_slashes(path@.subrange(i as int, l as int)),
        decreases l - i,
    {
        proof {
            let tail = path@.subrange(i as int, l as int);
            assert(tail.subrange(1, tail.len() as int) =~= path@.subrange(i + 1, l as int));
        }
        i = i + 1;
    }
    proof {
        let tail = path@.subrange(i as int, l as int);
        if i < l {
            assert(tail[0] == path@[i as int]);
            assert(trim_slashes(tail) == tail);
        } else {
            assert(tail =~= Seq::<char>::empty());
        }
    }
    path.substring_char(i, l).to_owned()
}

/// Resolve the parts of a parsed absolute store URL to a store
/// description; the outcome is exactly `resolve_model` over the parts.
pub fn resolve_parts(
    scheme: String,
    host: Option<String>,
    port: Option<u16>,
    path: String,
    decompress: bool,
    compatible: Option<String>,
) -> (r: Result<Store, ConfigError>)
    ensures
        resolved_model(r) == resolve_model(
            scheme@,
            match host {
                Some(h) => Some(h@),
                None => None,
            },
            port,
            path@,
            decompress,
            hints_s3(compatible),
        ),
{
    let s3_compat: bool = match &compatible {
        Some(c) => string_is(c, "s3"),
        None => false,
    };
    if string_is(&scheme, "http") || string_is(&scheme, "https") {
        let allow_http = string_is(&scheme, "http");
        match host {
            Some(h) => match port {
                Some(p) => {
                    let mut endpoint = scheme;
                    endpoint.append("://");
                    endpoint.append(h.as_str());
                    endpoint.append(":");
                    let port_digits = plain_u16(p);
                    endpoint.append(port_digits.as_str());
                    if s3_compat {
                        let bucket = first_segment_str(path.as_str());
                        let s = Store {
                            kind: StoreKind::S3Compatible { endpoint, bucket, allow_http },
                            base: String::new(),
                            decompress,
                        };
                        proof {
                            assert(resolved_model(Ok(s)) =~~= resolve_model(
                                scheme@,
                                Some(h@),
                                port,
                                path@,
                                decompress,
                                s3_compat,
                            ));
                        }
                        Ok(s)
                    } else {
                        let s = Store {
                            kind: StoreKind::Http { endpoint, allow_http },
                            base: String::new(),
                            decompress,
                        };
                        proof {
                            assert(resolved_model(Ok(s)) =~~= resolve_model(
                                scheme@,
                                Some(h@),
                                port,
                                path@,
                                decompress,
                                s3_compat,
                            ));
                        }
                        Ok(s)
                    }
                },
                None => Err(ConfigError::InvalidUrl),
            },
            None => Err(ConfigError::MissingHost),
        }
    } else if string_is(&scheme, "s3") {
        match host {
            Some(h) => Ok(
                Store {
                    kind: StoreKind::S3 { bucket: h },
                    base: strip_one_slash_str(path.as_str()),
                    decompress,
                },
            ),
            None => Err(ConfigError::MissingBucket),
        }
    } else if string_is(&scheme, "gs") {
        match host {
            Some(h) => Ok(
                Store {
                    kind: StoreKind::Gcs { bucket: h },
                    base: strip_one_slash_str(path.as_str()),
                    decompress,
                },
            ),
            None => Err(ConfigError::MissingBucket),
        }
    } else if string_is(&scheme, "file") {
        Ok(Store { kind: StoreKind::Local { prefix: path }, base: String::new(), decompress })
    } else {
        Err(ConfigError::UnsupportedScheme)
    }
}

/// Where a store URL string resolves to, over the named parts of its
/// parse: an absolute URL goes through the scheme dispatch, a relative
/// reference becomes a local store with the string as its prefix, and
/// anything else is a configuration error.
pub open spec fn new_model(s: Seq<char>, decompress: bool, s3_compatible: bool) -> Result<
    StoreModel,
    ConfigError,
> {
    if url_parses(s) {
        resolve_model(
            url_scheme_of(s),
            url_host_of(s),
            url_port_of(s),
            url_path_of(s),
            decompress,
            s3_compatible,
        )
    } else if url_is_relative(s) {
        Ok(
            StoreModel {
                kind: StoreKindModel::Local { prefix: s },
                base: Seq::empty(),
                decompress,
            },
        )
    } else {
        Err(ConfigError::InvalidUrl)
    }
}

/// Resolve a store URL string.
///
/// The URL is parsed by the `url` crate; an absolute URL is dispatched
/// by `resolve_parts` over its parsed scheme, host, port and path, a
/// bare path (no scheme) becomes a local store whose prefix the
/// filesystem backend resolves at construction, and an unparseable
/// string is a configuration error — exactly `new_model` over the
/// named parse outcome of the string.
pub fn new(store_url: &str, decompress: bool, compatible: Option<String>) -> (r: Result<
    Store,
    ConfigError,
>)
    ensures
        resolved_model(r) == new_model(store_url@, decompress, hints_s3(compatible)),
{
    match parse_url(store_url) {
        UrlParseOutcome::Parsed { scheme, host, port, path } => {
            let r = resolve_parts(scheme, host, port, path, decompress, compatible);
            r
        },
        UrlParseOutcome::RelativeWithoutBase => {
            let s = Store {
                kind: StoreKind::Local { prefix: store_url.to_owned() },
                base: String::new(),
                decompress,
            };
            proof {
                assert(resolved_model(Ok(s)) =~~= new_model(
                    store_url@,
                    decompress,
                    hints_s3(compatible),
                ));
            }
            Ok(s)
        },
        UrlParseOutcome::Invalid => Err(ConfigError::InvalidUrl),
    }
}

impl Store {
    /// The full object path of one chunk read: the base path, a '/',
    /// and the chunk name with its leading slashes removed.
    pub fn join_path(&self, path: &str) -> (r: String)
        ensures
            r@ == self.base@ + "/"@ + trim_slashes(path@),
    {
        let mut joined = self.base.clone();
        joined.append("/");
        let trimmed = trim_slashes_str(path);
        joined.append(trimmed.as_str());
        joined
    }
}

/// Per-read options of the store interface.
pub struct ReadOptions {
    pub decompress: Option<bool>,
}

impl ReadOptions {
    /// Whether this read decompresses the fetched bytes; on unless
    /// switched off.
    pub fn decompress(&self) -> (r: bool)
        ensures
            r == (match self.decompress {
                Some(b) => b,
                None => true,
            }),
    {
        match self.decompress {
            Some(b) => b,
            None => true,
        }
    }
}

/// Why one chunk read failed; scoped to the epoch that needed the chunk.
#[derive(Clone, Debug)]
pub enum ReadError {
    /// The store has no object under the chunk's path.
    NotFound(String),
    /// Any other backend fault: network, permission, malformed response.
    Storage(String),
    /// The fetched bytes could not be decoded into blocks.
    DecodeError(String),
}

} // verus!
