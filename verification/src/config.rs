//! Test configuration: protocol and test-type identities, payload-size
//! lists kept as ordered sets, port defaults, and the derived server URL.

use vstd::prelude::*;
use vstd::string::StringExecFns;

verus! {

/// Default port for the TCP test server.
pub const DEFAULT_TCP_PORT: u16 = 5201;

/// Default port for the UDP test server.
pub const DEFAULT_UDP_PORT: u16 = 5201;

/// Default port for the cleartext HTTP test server.
pub const DEFAULT_HTTP_PORT: u16 = 8080;

/// Default port for the HTTPS test server.
pub const DEFAULT_HTTPS_PORT: u16 = 8443;

/// Default chunk size for HTTP transfers, bytes.
pub const DEFAULT_CHUNK_SIZE: usize = 65536;

/// Largest upload body the HTTP server accepts, bytes (100 GiB).
pub const MAX_HTTP_UPLOAD_SIZE: u64 = 107_374_182_400;

/// The default chunk size for HTTP transfers.
pub fn default_chunk_size() -> (r: usize)
    ensures
        r == DEFAULT_CHUNK_SIZE,
{
    DEFAULT_CHUNK_SIZE
}

/// Which protocol a client run drives.
#[derive(Debug, Clone, Copy, PartialEq, Eq, Structural)]
pub enum ClientMode {
    TCP,
    UDP,
    HTTP1,
    H2C,
    HTTP2,
    HTTP3,
}

/// Which direction or directions a test runs.
#[derive(Debug, Clone, Copy, PartialEq, Eq, Structural)]
pub enum TestType {
    Download,
    Upload,
    /// Download, then upload, for each size.
    Bidirectional,
    /// Download and upload concurrently, for each size.
    Simultaneous,
    LatencyOnly,
}

impl Default for TestType {
    /// The default test runs both directions in turn.
    fn default() -> (t: TestType)
        ensures
            t == TestType::Bidirectional,
    {
        TestType::Bidirectional
    }
}

/// HTTP protocol versions the client can drive.
#[derive(Debug, Clone, Copy, PartialEq, Eq, Structural)]
pub enum HttpVersion {
    /// HTTP/1.1 without TLS.
    HTTP1,
    /// HTTP/2 cleartext.
    H2C,
    /// HTTP/2 with TLS.
    HTTP2,
    /// HTTP/3 over QUIC.
    HTTP3,
}

/// Whether a version runs over TLS.
pub open spec fn spec_is_secure(v: HttpVersion) -> bool {
    v == HttpVersion::HTTP2 || v == HttpVersion::HTTP3
}

impl HttpVersion {
    /// Whether this version runs over TLS.
    pub fn is_secure(&self) -> (r: bool)
        ensures
            r == spec_is_secure(*self),
    {
        matches!(self, HttpVersion::HTTP2 | HttpVersion::HTTP3)
    }

    /// The URL scheme this version uses.
    pub fn scheme(&self) -> (s: &'static str)
        ensures
            spec_is_secure(*self) ==> s@ == "https"@,
            !spec_is_secure(*self) ==> s@ == "http"@,
    {
        if self.is_secure() {
            "https"
        } else {
            "http"
        }
    }
}

/// The styles of progress display a phase can use.
#[derive(Debug, Clone, Copy, PartialEq, Eq, Structural)]
pub enum ProgressBarType {
    Latency,
    Download,
    Upload,
}

/// The decimal digit character for a value below ten.
pub open spec fn spec_digit_char(d: int) -> char {
    if d == 0 {
        '0'
    } else if d == 1 {
        '1'
    } else if d == 2 {
        '2'
    } else if d == 3 {
        '3'
    } else if d == 4 {
        '4'
    } else if d == 5 {
        '5'
    } else if d == 6 {
        '6'
    } else if d == 7 {
        '7'
    } else if d == 8 {
        '8'
    } else {
        '9'
    }
}

/// The decimal digits of `n`, most significant first.
pub open spec fn spec_decimal(n: int) -> Seq<char>
    recommends
        n >= 0,
    decreases n,
{
    if n < 10 {
        seq![spec_digit_char(if n < 0 {
            0
        } else {
            n
        })]
    } else {
        spec_decimal(n / 10).push(spec_digit_char(n % 10))
    }
}

/// The one-character string for a decimal digit.
fn digit_str(d: u64) -> (s: &'static str)
    requires
        d < 10,
    ensures
        s@ =~= seq![spec_digit_char(d as int)],
{
    proof {
        reveal_strlit("0");
        reveal_strlit("1");
        reveal_strlit("2");
        reveal_strlit("3");
        reveal_strlit("4");
        reveal_strlit("5");
        reveal_strlit("6");
        reveal_strlit("7");
        reveal_strlit("8");
        reveal_strlit("9");
    }
    if d == 0 {
        "0"
    } else if d == 1 {
        "1"
    } else if d == 2 {
        "2"
    } else if d == 3 {
        "3"
    } else if d == 4 {
        "4"
    } else if d == 5 {
        "5"
    } else if d == 6 {
        "6"
    } else if d == 7 {
        "7"
    } else if d == 8 {
        "8"
    } else {
        "9"
    }
}

/// `n` written in decimal.
pub fn u64_to_string(n: u64) -> (s: String)
    ensures
        s@ == spec_decimal(n as int),
    decreases n,
{
    if n < 10 {
        let s = digit_str(n).to_owned();
        proof {
            assert(s@ =~= spec_decimal(n as int));
        }
        s
    } else {
        let mut s = u64_to_string(n / 10);
        s.append(digit_str(n % 10));
        proof {
            assert(s@ =~= spec_decimal(n as int));
        }
        s
    }
}

/// The list with every repeated value removed, keeping first occurrences
/// in order.
pub open spec fn spec_dedup(s: Seq<usize>) -> Seq<usize>
    decreases s.len(),
{
    if s.len() == 0 {
        s
    } else {
        let d = spec_dedup(s.drop_last());
        if s.drop_last().contains(s.last()) {
            d
        } else {
            d.push(s.last())
        }
    }
}

/// Deduplication keeps exactly the values of the list, without repeats.
pub proof fn lemma_dedup_props(s: Seq<usize>)
    ensures
        forall|x: usize| #[trigger] spec_dedup(s).contains(x) <==> s.contains(x),
        forall|i: int, j: int|
            0 <= i < j < spec_dedup(s).len() ==> spec_dedup(s)[i] != spec_dedup(s)[j],
        spec_dedup(s).len() <= s.len(),
    decreases s.len(),
{
    if s.len() > 0 {
        lemma_dedup_props(s.drop_last());
        let d = spec_dedup(s.drop_last());
        assert forall|x: usize| #[trigger] spec_dedup(s).contains(x) implies s.contains(x) by {
            if d.contains(x) {
                assert(s.drop_last().contains(x));
                let j = choose|j: int| 0 <= j < s.drop_last().len() && s.drop_last()[j] == x;
                assert(s[j] == x);
            } else {
                assert(x == s.last());
                assert(s[s.len() - 1] == x);
            }
        }
        assert forall|x: usize| s.contains(x) implies #[trigger] spec_dedup(s).contains(x) by {
            let j = choose|j: int| 0 <= j < s.len() && s[j] == x;
            if j < s.len() - 1 {
                assert(s.drop_last()[j] == x);
                assert(d.contains(x));
                if !s.drop_last().contains(s.last()) {
                    let t = choose|t: int| 0 <= t < d.len() && d[t] == x;
                    assert(spec_dedup(s)[t] == x);
                }
            } else {
                if s.drop_last().contains(s.last()) {
                    assert(d.contains(x));
                    if !s.drop_last().contains(s.last()) {
                    }
                    let t = choose|t: int| 0 <= t < d.len() && d[t] == x;
                    assert(spec_dedup(s)[t] == x);
                } else {
                    assert(spec_dedup(s).last() == x);
                }
            }
        }
        if !s.drop_last().contains(s.last()) {
            assert forall|i: int, j: int|
                0 <= i < j < spec_dedup(s).len() implies spec_dedup(s)[i] != spec_dedup(s)[j] by {
                if j < spec_dedup(s).len() - 1 {
                    assert(spec_dedup(s)[i] == d[i] && spec_dedup(s)[j] == d[j]);
                } else {
                    assert(spec_dedup(s)[j] == s.last());
                    assert(d.contains(d[i]));
                    assert(s.drop_last().contains(d[i]));
                }
            }
        }
    }
}

/// The list with every repeated value removed, keeping first occurrences
/// in order.
pub fn dedup_sizes(sizes: &Vec<usize>) -> (out: Vec<usize>)
    ensures
        out@ == spec_dedup(sizes@),
{
    let ghost s = sizes@;
    let mut out: Vec<usize> = Vec::new();
    let mut i: usize = 0;
    proof {
        assert(s.take(0) =~= Seq::<usize>::empty());
    }
    while i < sizes.len()
        invariant
            i <= s.len(),
            sizes@ == s,
            out@ == spec_dedup(s.take(i as int)),
        decreases s.len() - i,
    {
        proof {
            assert(s.take(i as int + 1).drop_last() =~= s.take(i as int));
            assert(s.take(i as int + 1).last() == s[i as int]);
            lemma_dedup_props(s.take(i as int));
        }
        let x = sizes[i];
        let mut seen = false;
        let mut j: usize = 0;
        while j < out.len()
            invariant
                j <= out@.len(),
                seen == exists|t: int| 0 <= t < j && out@[t] == x,
            decreases out@.len() - j,
        {
            if out[j] == x {
                seen = true;
            }
            j = j + 1;
        }
        proof {
            assert(seen == out@.contains(x));
            assert(out@.contains(x) == s.take(i as int).contains(x));
        }
        if !seen {
            out.push(x);
        }
        i = i + 1;
    }
    proof {
        assert(s.take(s.len() as int) =~= s);
    }
    out
}

/// The payload sizes a TCP or UDP test uses when none are given.
pub fn default_stream_payload_sizes() -> (v: Vec<usize>)
    ensures
        v@ =~= seq![1024usize, 8192usize, 65536usize],
{
    let mut v: Vec<usize> = Vec::new();
    v.push(1024);
    v.push(8192);
    v.push(65536);
    v
}

/// The payload sizes an HTTP test uses when none are given.
pub fn default_http_payload_sizes() -> (v: Vec<usize>)
    ensures
        v@ =~= seq![1048576usize, 10485760usize, 104857600usize],
{
    let mut v: Vec<usize> = Vec::new();
    v.push(1048576);
    v.push(10485760);
    v.push(104857600);
    v
}

/// Configuration of a TCP throughput test.
#[derive(Debug, Clone, PartialEq, Eq)]
pub struct TcpTestConfig {
    pub server: String,
    pub port: u16,
    /// Test duration in seconds.
    pub duration_secs: u64,
    /// Number of parallel TCP connections, at least 1.
    pub parallel_connections: usize,
    pub test_type: TestType,
    /// Payload sizes in bytes: non-empty, unique, in the given order.
    pub payload_sizes: Vec<usize>,
}

impl TcpTestConfig {
    /// Build a TCP test configuration: the port defaults, the connection
    /// count is raised to at least 1, and the sizes are deduplicated with
    /// defaults supplied when none are given.
    pub fn new(
        server: String,
        port: Option<u16>,
        duration_secs: u64,
        parallel_connections: usize,
        test_type: TestType,
        payload_sizes: Vec<usize>,
    ) -> (c: TcpTestConfig)
        ensures
            c.server@ == server@,
            c.port == (match port {
                Some(p) => p,
                None => DEFAULT_TCP_PORT,
            }),
            c.duration_secs == duration_secs,
            c.parallel_connections == if parallel_connections >= 1 {
                parallel_connections
            } else {
                1
            },
            c.test_type == test_type,
            c.payload_sizes@ == if spec_dedup(payload_sizes@).len() == 0 {
                seq![1024usize, 8192usize, 65536usize]
            } else {
                spec_dedup(payload_sizes@)
            },
            c.payload_sizes@.len() > 0,
    {
        let sizes = dedup_sizes(&payload_sizes);
        let sizes = if sizes.len() == 0 {
            default_stream_payload_sizes()
        } else {
            sizes
        };
        TcpTestConfig {
            server,
            port: match port {
                Some(p) => p,
                None => DEFAULT_TCP_PORT,
            },
            duration_secs,
            parallel_connections: if parallel_connections >= 1 {
                parallel_connections
            } else {
                1
            },
            test_type,
            payload_sizes: sizes,
        }
    }
}

/// Configuration of a UDP (STP) throughput test.
#[derive(Debug, Clone, PartialEq, Eq)]
pub struct UdpTestConfig {
    pub server: String,
    pub port: u16,
    /// Test duration in seconds.
    pub duration_secs: u64,
    /// Number of parallel UDP streams, at least 1.
    pub parallel_streams: usize,
    pub test_type: TestType,
    /// Payload sizes in bytes: non-empty, unique, in the given order.
    pub payload_sizes: Vec<usize>,
}

impl UdpTestConfig {
    /// Build a UDP test configuration, with the same defaulting as TCP.
    pub fn new(
        server: String,
        port: Option<u16>,
        duration_secs: u64,
        parallel_streams: usize,
        test_type: TestType,
        payload_sizes: Vec<usize>,
    ) -> (c: UdpTestConfig)
        ensures
            c.server@ == server@,
            c.port == (match port {
                Some(p) => p,
                None => DEFAULT_UDP_PORT,
            }),
            c.duration_secs == duration_secs,
            c.parallel_streams == if parallel_streams >= 1 {
                parallel_streams
            } else {
                1
            },
            c.test_type == test_type,
            c.payload_sizes@ == if spec_dedup(payload_sizes@).len() == 0 {
                seq![1024usize, 8192usize, 65536usize]
            } else {
                spec_dedup(payload_sizes@)
            },
            c.payload_sizes@.len() > 0,
    {
        let sizes = dedup_sizes(&payload_sizes);
        let sizes = if sizes.len() == 0 {
            default_stream_payload_sizes()
        } else {
            sizes
        };
        UdpTestConfig {
            server,
            port: match port {
                Some(p) => p,
                None => DEFAULT_UDP_PORT,
            },
            duration_secs,
            parallel_streams: if parallel_streams >= 1 {
                parallel_streams
            } else {
                1
            },
            test_type,
            payload_sizes: sizes,
        }
    }
}

/// The URL that an HTTP test targets: scheme, host and port.
pub open spec fn spec_server_url(secure: bool, server: Seq<char>, port: u16) -> Seq<char> {
    (if secure {
        "https"@
    } else {
        "http"@
    }) + "://"@ + server + ":"@ + spec_decimal(port as int)
}

/// Configuration of an HTTP throughput test.
#[derive(Debug, Clone, PartialEq, Eq)]
pub struct HttpTestConfig {
    /// Scheme, host and port, e.g. a cleartext URL on the default port.
    pub server_url: String,
    /// Test duration in seconds.
    pub duration_secs: u64,
    /// Number of parallel connections, at least 1.
    pub parallel_connections: usize,
    pub test_type: TestType,
    /// Payload sizes in bytes: non-empty, unique, in the given order.
    pub payload_sizes: Vec<usize>,
    /// Chunk size for streaming and chunked upload, bytes.
    pub chunk_size: usize,
    pub http_version: HttpVersion,
}

impl HttpTestConfig {
    /// Build an HTTP test configuration: the scheme follows the version,
    /// the port defaults by scheme, and the URL is derived from all three.
    pub fn new(
        server: String,
        port: Option<u16>,
        duration_secs: u64,
        parallel_connections: usize,
        test_type: TestType,
        payload_sizes: Vec<usize>,
        http_version: HttpVersion,
    ) -> (c: HttpTestConfig)
        ensures
            c.server_url@ == spec_server_url(
                spec_is_secure(http_version),
                server@,
                match port {
                    Some(p) => p,
                    None => if spec_is_secure(http_version) {
                        DEFAULT_HTTPS_PORT
                    } else {
                        DEFAULT_HTTP_PORT
                    },
                },
            ),
            c.duration_secs == duration_secs,
            c.parallel_connections == if parallel_connections >= 1 {
                parallel_connections
            } else {
                1
            },
            c.test_type == test_type,
            c.payload_sizes@ == if spec_dedup(payload_sizes@).len() == 0 {
                seq![1048576usize, 10485760usize, 104857600usize]
            } else {
                spec_dedup(payload_sizes@)
            },
            c.payload_sizes@.len() > 0,
            c.chunk_size == DEFAULT_CHUNK_SIZE,
            c.http_version == http_version,
    {
        let secure = http_version.is_secure();
        let port = match port {
            Some(p) => p,
            None => if secure {
                DEFAULT_HTTPS_PORT
            } else {
                DEFAULT_HTTP_PORT
            },
        };
        let mut url = http_version.scheme().to_owned();
        url.append("://");
        url.append(server.as_str());
        url.append(":");
        url.append(u64_to_string(port as u64).as_str());
        proof {
            assert(url@ == spec_server_url(spec_is_secure(http_version), server@, port));
        }
        let sizes = dedup_sizes(&payload_sizes);
        let sizes = if sizes.len() == 0 {
            default_http_payload_sizes()
        } else {
            sizes
        };
        HttpTestConfig {
            server_url: url,
            duration_secs,
            parallel_connections: if parallel_connections >= 1 {
                parallel_connections
            } else {
                1
            },
            test_type,
            payload_sizes: sizes,
            chunk_size: DEFAULT_CHUNK_SIZE,
            http_version,
        }
    }
}

/// A test configuration of any protocol.
#[derive(Debug, Clone, PartialEq, Eq)]
pub enum TestConfig {
    Tcp(TcpTestConfig),
    Udp(UdpTestConfig),
    Http(HttpTestConfig),
}

impl From<TcpTestConfig> for TestConfig {
    /// Wrap a TCP configuration.
    fn from(c: TcpTestConfig) -> (r: TestConfig) {
        TestConfig::Tcp(c)
    }
}

impl vstd::std_specs::convert::FromSpecImpl<TcpTestConfig> for TestConfig {
    open spec fn obeys_from_spec() -> bool {
        true
    }

    open spec fn from_spec(c: TcpTestConfig) -> TestConfig {
        TestConfig::Tcp(c)
    }
}

impl From<UdpTestConfig> for TestConfig {
    /// Wrap a UDP configuration.
    fn from(c: UdpTestConfig) -> (r: TestConfig) {
        TestConfig::Udp(c)
    }
}

impl vstd::std_specs::convert::FromSpecImpl<UdpTestConfig> for TestConfig {
    open spec fn obeys_from_spec() -> bool {
        true
    }

    open spec fn from_spec(c: UdpTestConfig) -> TestConfig {
        TestConfig::Udp(c)
    }
}

impl From<HttpTestConfig> for TestConfig {
    /// Wrap an HTTP configuration.
    fn from(c: HttpTestConfig) -> (r: TestConfig) {
        TestConfig::Http(c)
    }
}

impl vstd::std_specs::convert::FromSpecImpl<HttpTestConfig> for TestConfig {
    open spec fn obeys_from_spec() -> bool {
        true
    }

    open spec fn from_spec(c: HttpTestConfig) -> TestConfig {
        TestConfig::Http(c)
    }
}

/// Where the HTTPS server's certificate and key sit, as PEM files.
#[derive(Debug, Clone, PartialEq, Eq)]
pub struct TlsConfig {
    /// Path of the certificate file.
    pub cert_path: String,
    /// Path of the private key file.
    pub key_path: String,
}

impl TlsConfig {
    /// A configuration naming the two PEM files.
    pub fn new(cert_path: String, key_path: String) -> (c: TlsConfig)
        ensures
            c.cert_path@ == cert_path@,
            c.key_path@ == key_path@,
    {
        TlsConfig { cert_path, key_path }
    }
}

} // verus!
