//! The verb-surface port: translates the canonical request paths of the
//! declarative API into store addresses, and the store's answers into
//! response statuses. The process around the core parses HTTP and hands
//! plain requests in.

use crate::util::str_eq;
use vstd::prelude::*;
use vstd::string::{StrSliceExecFns, StringExecFns};

verus! {

/// Gateway throughput counters.
#[derive(Clone, Copy, Debug, PartialEq, Eq, Structural)]
pub struct ApiServerMetrics {
    pub total_requests: u64,
    pub successful_requests: u64,
    pub failed_requests: u64,
    pub avg_response_time: u64,
    pub peak_response_time: u64,
    pub cache_hits: u64,
    pub cache_misses: u64,
    pub rate_limited_requests: u64,
}

/// The caller identity the gateway extracted.
pub struct AuthContext {
    pub user: String,
    pub groups: Vec<String>,
    pub service_account: Option<String>,
    pub namespace: Option<String>,
}

/// One request, after the transport peeled it.
pub struct ApiRequest {
    pub method: String,
    pub path: String,
    pub query: Vec<(String, String)>,
    pub headers: Vec<(String, String)>,
    pub body: Option<Vec<u8>>,
    pub auth: AuthContext,
}

/// One response, ready for the transport.
pub struct ApiResponse {
    pub status: u16,
    pub headers: Vec<(String, String)>,
    pub body: Vec<u8>,
    pub latency_us: u64,
}

/// Gateway configuration. Durations are microseconds.
pub struct ApiServerConfig {
    pub bind_address: String,
    pub port: u16,
    pub max_connections: usize,
    pub request_timeout: u64,
    pub enable_response_cache: bool,
    pub rate_limit_per_second: u64,
}

impl Default for ApiServerConfig {
    fn default() -> (r: Self)
        ensures
            r.port == 6443,
            r.max_connections == 1000,
            r.request_timeout == 30000000,
            r.enable_response_cache == true,
            r.rate_limit_per_second == 1000,
    {
        ApiServerConfig {
            bind_address: String::from_str("127.0.0.1"),
            port: 6443,
            max_connections: 1000,
            request_timeout: 30000000,
            enable_response_cache: true,
            rate_limit_per_second: 1000,
        }
    }
}

/// Why a path was refused.
#[derive(Clone, Copy, Debug, PartialEq, Eq, Structural)]
pub enum ApiError {
    InvalidPath,
    UnsupportedPattern,
}

/// What a request path addresses.
#[derive(Debug)]
pub struct ResourceInfo {
    pub group: String,
    pub version: String,
    pub kind: String,
    pub namespace: Option<String>,
    pub name: Option<String>,
}

/// The mathematical content of a resource address.
pub ghost struct ResourceInfoView {
    pub group: Seq<char>,
    pub version: Seq<char>,
    pub kind: Seq<char>,
    pub namespace: Option<Seq<char>>,
    pub name: Option<Seq<char>>,
}

impl View for ResourceInfo {
    type V = ResourceInfoView;

    open spec fn view(&self) -> ResourceInfoView {
        ResourceInfoView {
            group: self.group@,
            version: self.version@,
            kind: self.kind@,
            namespace: match self.namespace {
                Some(ref ns) => Some(ns@),
                None => None,
            },
            name: match self.name {
                Some(ref n) => Some(n@),
                None => None,
            },
        }
    }
}

/// What a clean segment decomposition of a path parses to. The leading
/// empty segment of an absolute path is skipped; `/api/{v}/...` has no
/// group and `/apis/{g}/{v}/...` names one; the rest is
/// `[namespaces/{ns}/]{kind}[/{name}]`.
pub open spec fn parse_segments_spec(all: Seq<Seq<char>>) -> Result<ResourceInfoView, ApiError> {
    let segs = if all.len() > 0 && all[0].len() == 0 {
        all.skip(1)
    } else {
        all
    };
    if segs.len() < 3 {
        Err(ApiError::InvalidPath)
    } else if !(segs[0] == "api"@ || segs[0] == "apis"@) {
        Err(ApiError::InvalidPath)
    } else if segs[0] == "apis"@ && segs.len() < 4 {
        Err(ApiError::InvalidPath)
    } else {
        let group: Seq<char> = if segs[0] == "api"@ {
            Seq::empty()
        } else {
            segs[1]
        };
        let version = if segs[0] == "api"@ {
            segs[1]
        } else {
            segs[2]
        };
        let rest = if segs[0] == "api"@ {
            segs.skip(2)
        } else {
            segs.skip(3)
        };
        if rest.len() == 1 {
            Ok(
                ResourceInfoView {
                    group,
                    version,
                    kind: rest[0],
                    namespace: None,
                    name: None,
                },
            )
        } else if rest.len() == 2 {
            Ok(
                ResourceInfoView {
                    group,
                    version,
                    kind: rest[0],
                    namespace: None,
                    name: Some(rest[1]),
                },
            )
        } else if rest.len() == 3 && rest[0] == "namespaces"@ {
            Ok(
                ResourceInfoView {
                    group,
                    version,
                    kind: rest[2],
                    namespace: Some(rest[1]),
                    name: None,
                },
            )
        } else if rest.len() == 4 && rest[0] == "namespaces"@ {
            Ok(
                ResourceInfoView {
                    group,
                    version,
                    kind: rest[2],
                    namespace: Some(rest[1]),
                    name: Some(rest[3]),
                },
            )
        } else {
            Err(ApiError::UnsupportedPattern)
        }
    }
}

/// The segments joined back with '/' separators.
pub open spec fn join_segments(segs: Seq<Seq<char>>) -> Seq<char>
    decreases segs.len(),
{
    if segs.len() == 0 {
        Seq::empty()
    } else if segs.len() == 1 {
        segs[0]
    } else {
        join_segments(segs.drop_last()) + seq!['/'] + segs.last()
    }
}

/// Whether no segment holds a separator.
pub open spec fn segments_clean(segs: Seq<Seq<char>>) -> bool {
    forall|i: int|
        0 <= i < segs.len() ==> forall|j: int| 0 <= j < (#[trigger] segs[i]).len() ==> segs[i][j] != '/'
}

/// Split a path on '/': the result joins back to the input and no piece
/// holds a separator, which determines the result uniquely.
pub fn split_path(path: &str) -> (r: Vec<String>)
    ensures
        join_segments(r@.map_values(|s: String| s@)) == path@,
        segments_clean(r@.map_values(|s: String| s@)),
        r@.len() >= 1,
{
    let n = path.unicode_len();
    let mut out: Vec<String> = Vec::new();
    let mut cur: String = String::new();
    let mut i: usize = 0;
    while i < n
        invariant
            i <= n,
            n == path@.len(),
            ({
                let segs = out@.map_values(|s: String| s@).push(cur@);
                join_segments(segs) == path@.take(i as int) && segments_clean(segs)
            }),
        decreases n - i,
    {
        let ghost out_pre = out@.map_values(|s: String| s@);
        let ghost segs_pre = out@.map_values(|s: String| s@).push(cur@);
        let c = path.get_char(i);
        if c == '/' {
            out.push(cur);
            cur = String::new();
            proof {
                assert(out@.map_values(|s: String| s@) =~= segs_pre);
                let segs = out@.map_values(|s: String| s@).push(cur@);
                assert(segs.drop_last() =~= segs_pre);
                assert(segs.last() == cur@);
                assert(cur@ =~= Seq::<char>::empty());
                assert(join_segments(segs) == join_segments(segs_pre) + seq!['/'] + cur@);
                assert(join_segments(segs) =~= path@.take(i + 1));
                assert forall|a: int|
                    0 <= a < segs.len() implies forall|j: int|
                    0 <= j < (#[trigger] segs[a]).len() ==> segs[a][j] != '/' by {
                    if a < segs.len() - 1 {
                        assert(segs[a] == segs_pre[a]);
                    }
                }
            }
        } else {
            let ghost cur_pre = cur@;
            cur.append(path.substring_char(i, i + 1));
            proof {
                assert(path@.subrange(i as int, i + 1) =~= seq![path@[i as int]]);
                assert(cur@ == cur_pre + seq![path@[i as int]]);
                let segs = out@.map_values(|s: String| s@).push(cur@);
                assert(segs.drop_last() =~= segs_pre.drop_last());
                assert(segs.last() == cur@);
                if segs_pre.len() == 1 {
                    assert(join_segments(segs) == cur@);
                    assert(join_segments(segs_pre) == cur_pre);
                } else {
                    assert(join_segments(segs) == join_segments(segs_pre.drop_last())
                        + seq!['/'] + cur@);
                    assert(join_segments(segs_pre) == join_segments(segs_pre.drop_last())
                        + seq!['/'] + cur_pre);
                }
                assert(join_segments(segs) =~= path@.take(i + 1));
                assert forall|a: int|
                    0 <= a < segs.len() implies forall|j: int|
                    0 <= j < (#[trigger] segs[a]).len() ==> segs[a][j] != '/' by {
                    if a < segs.len() - 1 {
                        assert(segs[a] == segs_pre[a]);
                    }
                }
            }
        }
        i = i + 1;
    }
    let ghost segs_last = out@.map_values(|s: String| s@).push(cur@);
    out.push(cur);
    proof {
        assert(out@.map_values(|s: String| s@) =~= segs_last);
        assert(path@.take(n as int) =~= path@);
    }
    out
}

/// Parse an already-split path.
pub fn parse_segments(parts: &Vec<String>) -> (r: Result<ResourceInfo, ApiError>)
    ensures
        match (r, parse_segments_spec(parts@.map_values(|s: String| s@))) {
            (Ok(info), Ok(v)) => info@ == v,
            (Err(e1), Err(e2)) => e1 == e2,
            _ => false,
        },
{
    let ghost all = parts@.map_values(|s: String| s@);
    let start: usize = if parts.len() > 0 && parts[0].as_str().unicode_len() == 0 {
        1
    } else {
        0
    };
    proof {
        if start == 1 {
            assert(all.skip(1) =~= parts@.map_values(|s: String| s@).skip(1));
        } else {
            assert(all.skip(0) =~= all);
        }
    }
    let ghost segs = if start == 1 {
        all.skip(1)
    } else {
        all
    };
    if parts.len() < start + 3 {
        return Err(ApiError::InvalidPath);
    }
    let is_core = str_eq(parts[start].as_str(), "api");
    let is_group = str_eq(parts[start].as_str(), "apis");
    proof {
        assert(segs[0] == parts@[start as int]@);
    }
    if !is_core && !is_group {
        return Err(ApiError::InvalidPath);
    }
    if is_group && parts.len() < start + 4 {
        return Err(ApiError::InvalidPath);
    }
    let group: String = if is_core {
        String::new()
    } else {
        parts[start + 1].clone()
    };
    let version: String = if is_core {
        parts[start + 1].clone()
    } else {
        parts[start + 2].clone()
    };
    let rest_start: usize = if is_core {
        start + 2
    } else {
        start + 3
    };
    proof {
        let rest = if segs[0] == "api"@ {
            segs.skip(2)
        } else {
            segs.skip(3)
        };
        assert(rest =~= all.skip(rest_start as int));
        assert(forall|j: int|
            0 <= j < rest.len() ==> rest[j] == #[trigger] all[rest_start + j]);
    }
    let rest_len = parts.len() - rest_start;
    if rest_len == 1 {
        Ok(
            ResourceInfo {
                group,
                version,
                kind: parts[rest_start].clone(),
                namespace: None,
                name: None,
            },
        )
    } else if rest_len == 2 {
        Ok(
            ResourceInfo {
                group,
                version,
                kind: parts[rest_start].clone(),
                namespace: None,
                name: Some(parts[rest_start + 1].clone()),
            },
        )
    } else if rest_len == 3 && str_eq(parts[rest_start].as_str(), "namespaces") {
        Ok(
            ResourceInfo {
                group,
                version,
                kind: parts[rest_start + 2].clone(),
                namespace: Some(parts[rest_start + 1].clone()),
                name: None,
            },
        )
    } else if rest_len == 4 && str_eq(parts[rest_start].as_str(), "namespaces") {
        Ok(
            ResourceInfo {
                group,
                version,
                kind: parts[rest_start + 2].clone(),
                namespace: Some(parts[rest_start + 1].clone()),
                name: Some(parts[rest_start + 3].clone()),
            },
        )
    } else {
        Err(ApiError::UnsupportedPattern)
    }
}

/// The resource a canonical path addresses. The path is split on '/' and
/// the clean decomposition parsed; the split's contract determines the
/// decomposition uniquely.
pub fn parse_api_path(path: &str) -> (r: Result<ResourceInfo, ApiError>)
    ensures
        exists|segs: Seq<Seq<char>>|
            join_segments(segs) == path@ && #[trigger] segments_clean(segs) && (match (
                r,
                parse_segments_spec(segs),
            ) {
                (Ok(info), Ok(v)) => info@ == v,
                (Err(e1), Err(e2)) => e1 == e2,
                _ => false,
            }),
{
    let parts = split_path(path);
    let r = parse_segments(&parts);
    proof {
        let segs = parts@.map_values(|s: String| s@);
        assert(join_segments(segs) == path@ && segments_clean(segs));
    }
    r
}

/// The primary key a resource address maps to: `ns/name` for namespaced
/// resources, the bare name otherwise.
pub fn build_resource_key(info: &ResourceInfo) -> (r: String)
    ensures
        match (info.namespace, info.name) {
            (Some(ns), Some(name)) => r@ == ns@ + seq!['/'] + name@,
            (None, Some(name)) => r@ == name@,
            _ => r@ == "unknown"@,
        },
{
    match (&info.namespace, &info.name) {
        (Some(ns), Some(name)) => {
            let mut k = ns.clone();
            k.append("/");
            proof {
                reveal_strlit("/");
                assert("/"@ =~= seq!['/']);
            }
            k.append(name.as_str());
            k
        },
        (None, Some(name)) => name.clone(),
        _ => String::from_str("unknown"),
    }
}

/// The store table a kind name selects: the canonical singular forms map
/// to the built-in plural tables; anything else is a custom kind.
pub fn get_store_type(kind: &str) -> (r: String)
    ensures
        kind@ == "node"@ ==> r@ == "nodes"@,
        kind@ == "pod"@ ==> r@ == "pods"@,
        kind@ == "service"@ ==> r@ == "services"@,
        kind@ == "endpoint"@ ==> r@ == "endpoints"@,
        kind@ == "configmap"@ ==> r@ == "configmaps"@,
        kind@ == "secret"@ ==> r@ == "secrets"@,
        !(kind@ == "node"@ || kind@ == "pod"@ || kind@ == "service"@ || kind@ == "endpoint"@
            || kind@ == "configmap"@ || kind@ == "secret"@) ==> r@ == kind@,
{
    proof {
        reveal_strlit("node");
        reveal_strlit("nodes");
        reveal_strlit("pod");
        reveal_strlit("pods");
        reveal_strlit("service");
        reveal_strlit("services");
        reveal_strlit("endpoint");
        reveal_strlit("endpoints");
        reveal_strlit("configmap");
        reveal_strlit("configmaps");
        reveal_strlit("secret");
        reveal_strlit("secrets");
        assert("node"@.len() == 4);
        assert("pod"@.len() == 3);
        assert("service"@.len() == 7);
        assert("endpoint"@.len() == 8);
        assert("configmap"@.len() == 9);
        assert("secret"@.len() == 6);
    }
    if str_eq(kind, "node") {
        String::from_str("nodes")
    } else if str_eq(kind, "pod") {
        String::from_str("pods")
    } else if str_eq(kind, "service") {
        String::from_str("services")
    } else if str_eq(kind, "endpoint") {
        String::from_str("endpoints")
    } else if str_eq(kind, "configmap") {
        String::from_str("configmaps")
    } else if str_eq(kind, "secret") {
        String::from_str("secrets")
    } else {
        String::from_str(kind)
    }
}

/// The response status each store error maps to.
pub fn status_for_error(e: crate::memory_store::StoreError) -> (r: u16)
    ensures
        e == crate::memory_store::StoreError::NotFound ==> r == 404,
        e == crate::memory_store::StoreError::Conflict ==> r == 409,
        e == crate::memory_store::StoreError::VersionMismatch ==> r == 409,
        e == crate::memory_store::StoreError::Expired ==> r == 410,
        e == crate::memory_store::StoreError::TooLarge ==> r == 413,
        e == crate::memory_store::StoreError::IntegrityError ==> r == 500,
{
    match e {
        crate::memory_store::StoreError::NotFound => 404,
        crate::memory_store::StoreError::Conflict => 409,
        crate::memory_store::StoreError::VersionMismatch => 409,
        crate::memory_store::StoreError::Expired => 410,
        crate::memory_store::StoreError::TooLarge => 413,
        crate::memory_store::StoreError::IntegrityError => 500,
    }
}

} // verus!
