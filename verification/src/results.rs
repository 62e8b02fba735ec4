//! Composed results: an insertion-ordered map from payload size to
//! throughput result, the per-protocol test result, and the report
//! envelope.

use crate::config::TestConfig;
use crate::latency::LatencyResult;
use crate::throughput::ThroughputResult;
use vstd::prelude::*;
use vstd::string::StringExecFns;

verus! {

/// The keys of a sequence of entries, in order.
pub open spec fn spec_keys_of(s: Seq<(usize, ThroughputResult)>) -> Seq<usize> {
    s.map_values(|e: (usize, ThroughputResult)| e.0)
}

/// A map from payload size to throughput result that iterates in
/// insertion order, as a vector of entries with unique keys.
#[derive(Debug, Clone, PartialEq, Eq)]
pub struct SizeResultMap {
    pub entries: Vec<(usize, ThroughputResult)>,
}

impl SizeResultMap {
    /// Unique keys: no size appears twice.
    pub open spec fn wf(self) -> bool {
        forall|i: int, j: int|
            0 <= i < j < self.entries@.len() ==> (#[trigger] self.entries@[i]).0 != (
            #[trigger] self.entries@[j]).0
    }

    /// An empty map.
    pub fn new() -> (m: SizeResultMap)
        ensures
            m.entries@.len() == 0,
            m.wf(),
    {
        SizeResultMap { entries: Vec::new() }
    }

    /// Number of entries.
    pub fn len(&self) -> (n: usize)
        ensures
            n == self.entries@.len(),
    {
        self.entries.len()
    }

    /// Whether the map holds nothing.
    pub fn is_empty(&self) -> (r: bool)
        ensures
            r == (self.entries@.len() == 0),
    {
        self.entries.len() == 0
    }

    /// Insert a result for a size: a fresh size is appended, keeping
    /// insertion order; a present size has its result replaced in place.
    pub fn insert(&mut self, size: usize, result: ThroughputResult)
        requires
            old(self).wf(),
        ensures
            final(self).wf(),
            (forall|t: int|
                0 <= t < old(self).entries@.len() ==> (#[trigger] old(self).entries@[t]).0
                    != size) ==> final(self).entries@ == old(self).entries@.push((size, result)),
            (exists|t: int|
                0 <= t < old(self).entries@.len() && (#[trigger] old(self).entries@[t]).0 == size)
                ==> final(self).entries@.len() == old(self).entries@.len() && (forall|t: int|
                0 <= t < old(self).entries@.len() && (#[trigger] old(self).entries@[t]).0 != size
                    ==> final(self).entries@[t] == old(self).entries@[t]) && (forall|t: int|
                0 <= t < old(self).entries@.len() && (#[trigger] old(self).entries@[t]).0 == size
                    ==> final(self).entries@[t] == (size, result)),
    {
        let ghost pre = self.entries@;
        let mut i: usize = 0;
        while i < self.entries.len()
            invariant
                i <= pre.len(),
                self.entries@ == pre,
                pre == old(self).entries@,
                forall|t: int| 0 <= t < i ==> (#[trigger] pre[t]).0 != size,
                forall|a: int, b: int|
                    0 <= a < b < pre.len() ==> (#[trigger] pre[a]).0 != (#[trigger] pre[b]).0,
            decreases pre.len() - i,
        {
            if self.entries[i].0 == size {
                self.entries.set(i, (size, result));
                proof {
                    assert(self.entries@ =~= pre.update(i as int, (size, result)));
                    assert forall|a: int, b: int|
                        0 <= a < b < self.entries@.len() implies (#[trigger] self.entries@[a]).0
                        != (#[trigger] self.entries@[b]).0 by {
                        assert(pre[a].0 != pre[b].0);
                    }
                }
                return ;
            }
            i = i + 1;
        }
        self.entries.push((size, result));
        proof {
            assert forall|a: int, b: int|
                0 <= a < b < self.entries@.len() implies (#[trigger] self.entries@[a]).0 != (
            #[trigger] self.entries@[b]).0 by {
                if b < self.entries@.len() - 1 {
                    assert(pre[a].0 != pre[b].0);
                } else {
                    assert(pre[a].0 != size);
                }
            }
        }
    }

    /// The result stored for a size, if any.
    pub fn get(&self, size: usize) -> (r: Option<&ThroughputResult>)
        ensures
            (r is Some) == (exists|t: int|
                0 <= t < self.entries@.len() && (#[trigger] self.entries@[t]).0 == size),
            r matches Some(v) ==> exists|t: int|
                0 <= t < self.entries@.len() && #[trigger] self.entries@[t] == (size, *v),
    {
        let mut i: usize = 0;
        while i < self.entries.len()
            invariant
                i <= self.entries@.len(),
                forall|t: int| 0 <= t < i ==> (#[trigger] self.entries@[t]).0 != size,
            decreases self.entries@.len() - i,
        {
            if self.entries[i].0 == size {
                return Some(&self.entries[i].1);
            }
            i = i + 1;
        }
        None
    }

    /// The sizes in iteration order: the order they were inserted in.
    pub fn keys(&self) -> (r: Vec<usize>)
        ensures
            r@ == spec_keys_of(self.entries@),
    {
        let ghost s = self.entries@;
        let mut out: Vec<usize> = Vec::new();
        let mut i: usize = 0;
        while i < self.entries.len()
            invariant
                i <= s.len(),
                self.entries@ == s,
                out@ =~= spec_keys_of(s).take(i as int),
            decreases s.len() - i,
        {
            out.push(self.entries[i].0);
            proof {
                assert(out@ =~= spec_keys_of(s).take(i as int + 1));
            }
            i = i + 1;
        }
        proof {
            assert(spec_keys_of(s).take(s.len() as int) =~= spec_keys_of(s));
        }
        out
    }
}

/// Inserting results under a list of fresh, pairwise distinct sizes into a
/// map leaves its keys iterating in exactly that list's order after the
/// keys it already had.
pub proof fn lemma_report_ordering(
    pre: Seq<(usize, ThroughputResult)>,
    sizes: Seq<usize>,
    results: Seq<ThroughputResult>,
)
    requires
        sizes.len() == results.len(),
        forall|i: int, j: int| 0 <= i < j < sizes.len() ==> sizes[i] != sizes[j],
        forall|i: int, t: int|
            0 <= i < sizes.len() && 0 <= t < pre.len() ==> (#[trigger] pre[t]).0
                != #[trigger] sizes[i],
    ensures
        spec_keys_of(spec_insert_all(pre, sizes, results)) == spec_keys_of(pre) + sizes,
    decreases sizes.len(),
{
    if sizes.len() == 0 {
        assert(spec_keys_of(pre) + sizes =~= spec_keys_of(pre));
    } else {
        let first = (sizes[0], results[0]);
        let pre2 = pre.push(first);
        assert forall|i: int, t: int|
            0 <= i < sizes.drop_first().len() && 0 <= t < pre2.len() implies (
        #[trigger] pre2[t]).0 != #[trigger] sizes.drop_first()[i] by {
            assert(sizes.drop_first()[i] == sizes[i + 1]);
            if t < pre.len() {
                assert(pre2[t] == pre[t]);
            } else {
                assert(pre2[t] == first);
            }
        }
        lemma_report_ordering(pre2, sizes.drop_first(), results.drop_first());
        assert(spec_insert_all(pre, sizes, results) == spec_insert_all(
            pre2,
            sizes.drop_first(),
            results.drop_first(),
        ));
        assert(spec_keys_of(pre2) =~= spec_keys_of(pre).push(sizes[0]));
        assert(spec_keys_of(pre).push(sizes[0]) + sizes.drop_first() =~= spec_keys_of(pre)
            + sizes);
    }
}

/// The entries after appending one result per size, in order.
pub open spec fn spec_insert_all(
    pre: Seq<(usize, ThroughputResult)>,
    sizes: Seq<usize>,
    results: Seq<ThroughputResult>,
) -> Seq<(usize, ThroughputResult)>
    recommends
        sizes.len() == results.len(),
    decreases sizes.len(),
{
    if sizes.len() == 0 {
        pre
    } else {
        spec_insert_all(pre.push((sizes[0], results[0])), sizes.drop_first(), results.drop_first())
    }
}

/// Which protocol family produced a network test result.
#[derive(Debug, Clone, Copy, PartialEq, Eq, Structural)]
pub enum NetworkProtocol {
    Http,
    Tcp,
    Udp,
}

/// The result of one client test: optional latency, and per-size download
/// and upload results iterating in the order the sizes were run.
#[derive(Debug, Clone, PartialEq, Eq)]
pub struct NetworkTestResult {
    pub latency: Option<LatencyResult>,
    pub download: SizeResultMap,
    pub upload: SizeResultMap,
    pub protocol: NetworkProtocol,
}

impl NetworkTestResult {
    /// An empty result for the given protocol.
    pub fn new(protocol: NetworkProtocol) -> (r: NetworkTestResult)
        ensures
            r.latency is None,
            r.download.entries@.len() == 0,
            r.upload.entries@.len() == 0,
            r.download.wf(),
            r.upload.wf(),
            r.protocol == protocol,
    {
        NetworkTestResult {
            latency: None,
            download: SizeResultMap::new(),
            upload: SizeResultMap::new(),
            protocol,
        }
    }

    /// An empty HTTP result.
    pub fn new_http() -> (r: NetworkTestResult)
        ensures
            r.latency is None,
            r.download.entries@.len() == 0,
            r.upload.entries@.len() == 0,
            r.protocol == NetworkProtocol::Http,
    {
        NetworkTestResult::new(NetworkProtocol::Http)
    }

    /// An empty TCP result.
    pub fn new_tcp() -> (r: NetworkTestResult)
        ensures
            r.latency is None,
            r.download.entries@.len() == 0,
            r.upload.entries@.len() == 0,
            r.protocol == NetworkProtocol::Tcp,
    {
        NetworkTestResult::new(NetworkProtocol::Tcp)
    }

    /// An empty UDP result.
    pub fn new_udp() -> (r: NetworkTestResult)
        ensures
            r.latency is None,
            r.download.entries@.len() == 0,
            r.upload.entries@.len() == 0,
            r.protocol == NetworkProtocol::Udp,
    {
        NetworkTestResult::new(NetworkProtocol::Udp)
    }
}

/// A test result: a bare throughput result, or a full network result.
#[derive(Debug, Clone, PartialEq, Eq)]
pub enum TestResult {
    Simple(ThroughputResult),
    Network(NetworkTestResult),
}

/// The version string this library reports in its report envelopes.
pub fn library_version() -> (v: String)
    ensures
        v@ == "0.1.0"@,
{
    "0.1.0".to_owned()
}

/// The report envelope: when the test started, its configuration and
/// result, when the report was produced, and the producer's version.
/// Times are microseconds since the Unix epoch.
#[derive(Debug, Clone, PartialEq, Eq)]
pub struct TestReport {
    pub start_time_micros: u64,
    pub config: TestConfig,
    pub result: TestResult,
    pub timestamp_micros: u64,
    pub version: String,
}

impl TestReport {
    /// A report over the given configuration and result, carrying this
    /// library's version.
    pub fn new(
        start_time_micros: u64,
        config: TestConfig,
        result: TestResult,
        timestamp_micros: u64,
    ) -> (r: TestReport)
        ensures
            r.start_time_micros == start_time_micros,
            r.config == config,
            r.result == result,
            r.timestamp_micros == timestamp_micros,
            r.version@ == "0.1.0"@,
    {
        TestReport {
            start_time_micros,
            config,
            result,
            timestamp_micros,
            version: library_version(),
        }
    }
}

} // verus!
