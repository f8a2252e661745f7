use vstd::prelude::*;
use crate::canonical::decimal_chars;
use crate::error::SigniaError;
use crate::ident::{ascii_lower, ascii_lower_exec, is_digit, is_lower};
use crate::json::digits;
use crate::strs::{chars_of, is_blank, str_eq, string_of, trim_spec};

verus! {

/// Identifier of a plugin.
#[derive(Debug, Clone, PartialEq, Eq, PartialOrd, Ord, Hash)]
pub struct PluginId(pub String);

impl PluginId {
    pub fn new(id: &str) -> (r: Self)
        ensures
            r.0@ == id@,
    {
        PluginId(String::from_str(id))
    }

    pub fn as_str(&self) -> (r: &str)
        ensures
            r@ == self.0@,
    {
        self.0.as_str()
    }
}

/// What a host lets plugins do.
#[derive(Debug, Clone, Copy)]
pub struct HostCapabilities {
    pub network: bool,
    pub filesystem: bool,
    pub clock: bool,
    pub spawn: bool,
}

/// Declaration of a plugin: identity, supported input types, limits and the
/// capabilities it wants. Maps are kept as key/value lists.
#[derive(Debug, Clone)]
pub struct PluginSpec {
    pub id: PluginId,
    pub name: String,
    pub version: String,
    pub supports: Vec<String>,
    pub limits: Vec<(String, u64)>,
    pub wants: Vec<(String, bool)>,
    pub meta: Vec<(String, String)>,
}

impl PluginSpec {
    pub fn new(id: &str, name: &str, version: &str) -> (r: Self)
        ensures
            r.id.0@ == id@,
            r.name@ == name@,
            r.version@ == version@,
            r.supports@.len() == 0,
            r.limits@.len() == 0,
            r.wants@.len() == 0,
            r.meta@.len() == 0,
    {
        PluginSpec {
            id: PluginId::new(id),
            name: String::from_str(name),
            version: String::from_str(version),
            supports: Vec::new(),
            limits: Vec::new(),
            wants: Vec::new(),
            meta: Vec::new(),
        }
    }

    /// Adds a supported input type.
    pub fn support(self, input_type: &str) -> (r: Self)
        ensures
            r.supports@.len() == self.supports@.len() + 1,
            r.supports@.last()@ == input_type@,
            r.supports@.drop_last() == self.supports@,
            r.wants@ == self.wants@,
            r.meta@ == self.meta@,
            r.limits@ == self.limits@,
            r.id == self.id,
    {
        let mut s = self;
        let ghost before = s.supports@;
        s.supports.push(String::from_str(input_type));
        assert(s.supports@.drop_last() =~= before);
        s
    }

    /// Records a wanted capability.
    pub fn want(self, key: &str, value: bool) -> (r: Self)
        ensures
            r.wants@.len() == self.wants@.len() + 1,
            r.wants@.last().0@ == key@,
            r.wants@.last().1 == value,
            r.wants@.drop_last() == self.wants@,
            r.supports@ == self.supports@,
            r.meta@ == self.meta@,
            r.limits@ == self.limits@,
            r.id == self.id,
    {
        let mut s = self;
        let ghost before = s.wants@;
        s.wants.push((String::from_str(key), value));
        assert(s.wants@.drop_last() =~= before);
        s
    }

    /// Records a limit.
    pub fn limit(self, key: &str, value: u64) -> (r: Self)
        ensures
            r.limits@ == self.limits@.push(r.limits@.last()),
            r.limits@.last().0@ == key@,
            r.limits@.last().1 == value,
            r.supports@ == self.supports@,
            r.wants@ == self.wants@,
            r.meta@ == self.meta@,
            r.id == self.id,
    {
        let mut s = self;
        s.limits.push((String::from_str(key), value));
        s
    }

    /// Records a metadata entry.
    pub fn meta(self, key: &str, value: &str) -> (r: Self)
        ensures
            r.meta@ == self.meta@.push(r.meta@.last()),
            r.meta@.last().0@ == key@,
            r.meta@.last().1@ == value@,
            r.supports@ == self.supports@,
            r.wants@ == self.wants@,
            r.limits@ == self.limits@,
            r.id == self.id,
    {
        let mut s = self;
        s.meta.push((String::from_str(key), String::from_str(value)));
        s
    }

    /// Whether the plugin supports the input type.
    pub fn supports_type(&self, input_type: &str) -> (r: bool)
        ensures
            r == exists|i: int| 0 <= i < self.supports@.len() && (#[trigger] self.supports@[i])@ == input_type@,
    {
        let mut i: usize = 0;
        while i < self.supports.len()
            invariant
                i <= self.supports@.len(),
                forall|j: int| 0 <= j < i ==> (#[trigger] self.supports@[j])@ != input_type@,
            decreases self.supports@.len() - i,
        {
            if str_eq(self.supports[i].as_str(), input_type) {
                return true;
            }
            i = i + 1;
        }
        false
    }

    /// Id, name and version must be non-blank, the id ASCII.
    pub fn validate(&self) -> (r: Result<(), SigniaError>)
        ensures
            r is Ok <==> (trim_spec(self.id.0@).len() > 0 && (forall|i: int|
                0 <= i < self.id.0@.len() ==> (#[trigger] self.id.0@[i] as u32) < 128)
                && trim_spec(self.name@).len() > 0 && trim_spec(self.version@).len() > 0),
    {
        if is_blank(self.id.as_str()) {
            return Err(SigniaError::invalid_argument("plugin id is empty"));
        }
        let v = chars_of(self.id.as_str());
        let mut i: usize = 0;
        while i < v.len()
            invariant
                i <= v@.len(),
                v@ == self.id.0@,
                forall|j: int| 0 <= j < i ==> (#[trigger] v@[j] as u32) < 128,
            decreases v@.len() - i,
        {
            if (v[i] as u32) >= 128 {
                return Err(SigniaError::invalid_argument("plugin id must be ASCII"));
            }
            i = i + 1;
        }
        if is_blank(self.name.as_str()) {
            return Err(SigniaError::invalid_argument("plugin name is empty"));
        }
        if is_blank(self.version.as_str()) {
            return Err(SigniaError::invalid_argument("plugin version is empty"));
        }
        Ok(())
    }
}

/// Outcome of matching a plugin's wants against a host.
#[derive(Debug, Clone)]
pub struct SpecEvaluation {
    pub allowed: bool,
    pub reason: Option<String>,
    pub missing: Vec<String>,
}

impl SpecEvaluation {
    pub fn allowed() -> (r: Self)
        ensures
            r.allowed,
            r.reason is None,
            r.missing@.len() == 0,
    {
        SpecEvaluation { allowed: true, reason: None, missing: Vec::new() }
    }

    pub fn denied(reason: &str, missing: Vec<String>) -> (r: Self)
        ensures
            !r.allowed,
            r.reason is Some && r.reason->0@ == reason@,
            r.missing@ == missing@,
    {
        SpecEvaluation { allowed: false, reason: Some(String::from_str(reason)), missing }
    }
}

/// Whether the host grants the capability named `k`; unknown names are not granted.
pub open spec fn grants(host: HostCapabilities, k: Seq<char>) -> bool {
    if k == "network"@ {
        host.network
    } else if k == "filesystem"@ {
        host.filesystem
    } else if k == "clock"@ {
        host.clock
    } else if k == "spawn"@ {
        host.spawn
    } else {
        false
    }
}

/// Wanted capabilities that the host does not grant, in declaration order.
pub open spec fn missing_wants(w: Seq<(String, bool)>, host: HostCapabilities) -> Seq<Seq<char>>
    decreases w.len(),
{
    if w.len() == 0 {
        Seq::empty()
    } else {
        let rest = missing_wants(w.drop_last(), host);
        if w.last().1 && !grants(host, w.last().0@) {
            rest.push(w.last().0@)
        } else {
            rest
        }
    }
}

fn host_grants(host: &HostCapabilities, k: &str) -> (r: bool)
    ensures
        r == grants(*host, k@),
{
    if str_eq(k, "network") {
        host.network
    } else if str_eq(k, "filesystem") {
        host.filesystem
    } else if str_eq(k, "clock") {
        host.clock
    } else if str_eq(k, "spawn") {
        host.spawn
    } else {
        false
    }
}

/// Allows the plugin exactly when the host grants every capability it wants;
/// otherwise lists the missing ones.
pub fn evaluate_spec(spec: &PluginSpec, host: &HostCapabilities) -> (r: SpecEvaluation)
    ensures
        r.allowed <==> missing_wants(spec.wants@, *host).len() == 0,
        r.missing@.map_values(|s: String| s@) == missing_wants(spec.wants@, *host),
{
    let mut missing: Vec<String> = Vec::new();
    let mut i: usize = 0;
    while i < spec.wants.len()
        invariant
            i <= spec.wants@.len(),
            missing@.map_values(|s: String| s@) == missing_wants(spec.wants@.subrange(0, i as int), *host),
        decreases spec.wants@.len() - i,
    {
        let ghost pre = spec.wants@.subrange(0, i as int);
        let ghost nxt = spec.wants@.subrange(0, i + 1);
        assert(nxt.drop_last() =~= pre);
        let ghost before = missing@;
        if spec.wants[i].1 && !host_grants(host, spec.wants[i].0.as_str()) {
            missing.push(spec.wants[i].0.clone());
            assert(missing@.map_values(|s: String| s@) =~= before.map_values(|s: String| s@).push(spec.wants@[i as int].0@));
        }
        i = i + 1;
    }
    assert(spec.wants@.subrange(0, spec.wants@.len() as int) =~= spec.wants@);
    if missing.len() == 0 {
        SpecEvaluation::allowed()
    } else {
        SpecEvaluation::denied("host capabilities do not satisfy plugin wants", missing)
    }
}

/// A namespace in normal form: ASCII letters lowered, letters and digits kept,
/// each run of `-`, `_`, space and `.` (after some kept character) turned into
/// one `-`, other characters dropped, and dashes trimmed at both ends.
pub open spec fn ns_step(out: Seq<char>, c0: char) -> Seq<char> {
    let c = ascii_lower(c0);
    if is_lower(c) || is_digit(c) {
        out.push(c)
    } else if c == '-' || c == '_' || c == ' ' || c == '.' {
        if out.len() > 0 && out.last() != '-' {
            out.push('-')
        } else {
            out
        }
    } else {
        out
    }
}

pub open spec fn ns_fold(s: Seq<char>) -> Seq<char>
    decreases s.len(),
{
    if s.len() == 0 {
        Seq::empty()
    } else {
        ns_step(ns_fold(s.drop_last()), s.last())
    }
}

/// Dashes at the end removed (the folded text never starts with one).
pub open spec fn trim_dashes_end(s: Seq<char>) -> Seq<char>
    decreases s.len(),
{
    if s.len() > 0 && s.last() == '-' {
        trim_dashes_end(s.drop_last())
    } else {
        s
    }
}

pub open spec fn namespace_norm(s: Seq<char>) -> Seq<char> {
    trim_dashes_end(ns_fold(s))
}

/// Normal form of a registry namespace.
pub fn normalize_namespace(input: &str) -> (r: String)
    ensures
        r@ == namespace_norm(input@),
{
    let v = chars_of(input);
    let mut out: Vec<char> = Vec::new();
    let mut i: usize = 0;
    while i < v.len()
        invariant
            i <= v@.len(),
            v@ == input@,
            out@ == ns_fold(v@.subrange(0, i as int)),
        decreases v@.len() - i,
    {
        let c = ascii_lower_exec(v[i]);
        if ('a' <= c && c <= 'z') || ('0' <= c && c <= '9') {
            out.push(c);
        } else if c == '-' || c == '_' || c == ' ' || c == '.' {
            if out.len() > 0 && out[out.len() - 1] != '-' {
                out.push('-');
            }
        }
        assert(v@.subrange(0, i + 1).drop_last() =~= v@.subrange(0, i as int));
        i = i + 1;
    }
    assert(v@.subrange(0, v@.len() as int) =~= v@);
    let mut n: usize = out.len();
    assert(out@.subrange(0, out@.len() as int) =~= out@);
    while n > 0 && out[n - 1] == '-'
        invariant
            n <= out@.len(),
            trim_dashes_end(out@) == trim_dashes_end(out@.subrange(0, n as int)),
        decreases n,
    {
        assert(out@.subrange(0, n as int).drop_last() =~= out@.subrange(0, n - 1));
        n = n - 1;
    }
    assert(out@.subrange(0, n as int) == trim_dashes_end(out@.subrange(0, n as int)));
    crate::strs::string_of_range(&out, 0, n)
}

/// A publication plan: the instructions to send.
#[derive(Debug, Clone)]
pub struct TxPlan {
    pub instructions: Vec<String>,
}

impl TxPlan {
    pub fn empty() -> (r: Self)
        ensures
            r.instructions@.len() == 0,
    {
        TxPlan { instructions: Vec::new() }
    }

    /// `no instructions`, or the count followed by ` instruction(s)`.
    pub fn describe(&self) -> (r: String)
        ensures
            self.instructions@.len() == 0 ==> r@ == "no instructions"@,
            self.instructions@.len() > 0 ==> r@ == digits(self.instructions@.len()) + " instruction(s)"@,
    {
        if self.instructions.len() == 0 {
            String::from_str("no instructions")
        } else {
            let d = decimal_chars(self.instructions.len() as u64);
            string_of(d.as_slice()).concat(" instruction(s)")
        }
    }
}

/// The plan to publish an object: no instructions are built yet.
pub fn build_publish_plan(object_id: &str) -> (r: Result<TxPlan, SigniaError>)
    ensures
        r is Ok,
        r->Ok_0.instructions@.len() == 0,
{
    Ok(TxPlan::empty())
}

/// A client configuration naming a cluster.
#[derive(Debug, Clone)]
pub struct SolanaClient {
    pub cluster: String,
}

impl SolanaClient {
    /// Refuses a blank cluster name.
    pub fn new(cluster: &str) -> (r: Result<Self, SigniaError>)
        ensures
            r is Ok <==> trim_spec(cluster@).len() > 0,
            r is Ok ==> r->Ok_0.cluster@ == cluster@,
    {
        if is_blank(cluster) {
            return Err(SigniaError::invalid_argument("cluster must not be empty"));
        }
        Ok(SolanaClient { cluster: String::from_str(cluster) })
    }
}


/// Plugin declarations ordered by id, ids unique.
#[derive(Debug)]
pub struct PluginRegistry {
    pub specs: Vec<PluginSpec>,
}

pub open spec fn registry_ok(r: PluginRegistry) -> bool {
    forall|i: int, j: int| 0 <= i < j < r.specs@.len() ==> crate::json::key_lt(#[trigger] r.specs@[i].id.0@, #[trigger] r.specs@[j].id.0@)
}

pub open spec fn opt_text(v: Option<&str>) -> Option<Seq<char>> {
    match v {
        Some(s) => Some(s@),
        None => None,
    }
}

/// `k` is the first plugin with this id, its version matches when one is
/// asked for, and the host grants what it wants.
pub open spec fn resolvable(r: PluginRegistry, host: HostCapabilities, id: Seq<char>, version: Option<Seq<char>>, k: int) -> bool {
    0 <= k < r.specs@.len() && r.specs@[k].id.0@ == id && (forall|j: int| 0 <= j < k ==> (#[trigger] r.specs@[j]).id.0@ != id)
        && (version is Some ==> r.specs@[k].version@ == version->0) && missing_wants(r.specs@[k].wants@, host).len() == 0
}

/// `k` is the only plugin supporting the kind, and the host grants what it wants.
pub open spec fn dispatchable(r: PluginRegistry, host: HostCapabilities, kind: Seq<char>, k: int) -> bool {
    0 <= k < r.specs@.len() && supports_kind(r.specs@[k], kind) && (forall|j: int|
        0 <= j < r.specs@.len() && j != k ==> !supports_kind(#[trigger] r.specs@[j], kind)) && missing_wants(r.specs@[k].wants@, host).len() == 0
}

pub open spec fn supports_kind(p: PluginSpec, kind: Seq<char>) -> bool {
    exists|i: int| 0 <= i < p.supports@.len() && (#[trigger] p.supports@[i])@ == kind
}

impl PluginRegistry {
    pub fn new() -> (r: Self)
        ensures
            r.specs@.len() == 0,
            registry_ok(r),
    {
        PluginRegistry { specs: Vec::new() }
    }

    /// Adds a plugin in id order; a second plugin with the same id is refused.
    pub fn register(&mut self, spec: PluginSpec) -> (r: Result<(), SigniaError>)
        requires
            registry_ok(*old(self)),
        ensures
            registry_ok(*final(self)),
            r is Ok <==> forall|i: int| 0 <= i < old(self).specs@.len() ==> (#[trigger] old(self).specs@[i]).id.0@ != spec.id.0@,
            r is Ok ==> final(self).specs@.len() == old(self).specs@.len() + 1,
            r is Err ==> final(self).specs@ == old(self).specs@,
    {
        let k = chars_of(spec.id.as_str());
        let mut pos: usize = 0;
        while pos < self.specs.len() && crate::json::chars_lt(&chars_of(self.specs[pos].id.as_str()), &k)
            invariant
                pos <= self.specs@.len(),
                k@ == spec.id.0@,
                forall|i: int| 0 <= i < pos ==> crate::json::key_lt((#[trigger] self.specs@[i]).id.0@, k@),
            decreases self.specs@.len() - pos,
        {
            pos = pos + 1;
        }
        let ghost s0 = self.specs@;
        if pos < self.specs.len() && str_eq(self.specs[pos].id.as_str(), spec.id.as_str()) {
            return Err(SigniaError::invalid_argument("plugin id already registered"));
        }
        proof {
            assert forall|i: int| pos <= i < s0.len() implies crate::json::key_lt(k@, (#[trigger] s0[i]).id.0@) by {
                crate::json::lemma_key_lt_total(k@, s0[pos as int].id.0@);
                if i > pos {
                    crate::json::lemma_key_lt_trans(k@, s0[pos as int].id.0@, s0[i].id.0@);
                }
            }
            assert forall|i: int| 0 <= i < s0.len() implies (#[trigger] s0[i]).id.0@ != k@ by {
                if i < pos {
                    crate::json::lemma_key_lt_irrefl(k@);
                } else {
                    crate::json::lemma_key_lt_irrefl(k@);
                }
            }
        }
        self.specs.insert(pos, spec);
        proof {
            let s1 = self.specs@;
            assert forall|i: int, j: int| 0 <= i < j < s1.len() implies crate::json::key_lt(#[trigger] s1[i].id.0@, #[trigger] s1[j].id.0@) by {
                if j < pos {
                    assert(s1[i] == s0[i] && s1[j] == s0[j]);
                } else if j == pos {
                    assert(s1[i] == s0[i]);
                } else if i == pos {
                    assert(s1[j] == s0[j - 1]);
                } else if i < pos {
                    assert(s1[i] == s0[i] && s1[j] == s0[j - 1]);
                    crate::json::lemma_key_lt_trans(s0[i].id.0@, k@, s0[j - 1].id.0@);
                } else {
                    assert(s1[i] == s0[i - 1] && s1[j] == s0[j - 1]);
                }
            }
        }
        Ok(())
    }

    /// Ids in order.
    pub fn list_ids(&self) -> (r: Vec<String>)
        ensures
            r@.len() == self.specs@.len(),
            forall|i: int| 0 <= i < r@.len() ==> (#[trigger] r@[i])@ == self.specs@[i].id.0@,
    {
        let mut out: Vec<String> = Vec::new();
        let mut i: usize = 0;
        while i < self.specs.len()
            invariant
                i <= self.specs@.len(),
                out@.len() == i,
                forall|q: int| 0 <= q < i ==> (#[trigger] out@[q])@ == self.specs@[q].id.0@,
            decreases self.specs@.len() - i,
        {
            out.push(self.specs[i].id.0.clone());
            i = i + 1;
        }
        out
    }
}

/// Chooses plugins for a host.
#[derive(Debug, Clone, Copy)]
pub struct PluginResolver {
    pub host: HostCapabilities,
}

impl PluginResolver {
    pub fn new(host: HostCapabilities) -> (r: Self)
        ensures
            r.host == host,
    {
        PluginResolver { host }
    }

    /// The position of the plugin with this id, when the version matches (if
    /// asked) and the host grants what it wants.
    pub fn resolve(&self, registry: &PluginRegistry, id: &str, version: Option<&str>) -> (r: Result<usize, SigniaError>)
        ensures
            r is Ok ==> r->Ok_0 < registry.specs@.len() && registry.specs@[r->Ok_0 as int].id.0@ == id@
                && (version is Some ==> registry.specs@[r->Ok_0 as int].version@ == version->0@)
                && missing_wants(registry.specs@[r->Ok_0 as int].wants@, self.host).len() == 0,
            (forall|i: int| 0 <= i < registry.specs@.len() ==> (#[trigger] registry.specs@[i]).id.0@ != id@) ==> r is Err,
            r is Ok <==> exists|k: int| #[trigger] resolvable(*registry, self.host, id@, opt_text(version), k),
            r is Ok ==> resolvable(*registry, self.host, id@, opt_text(version), r->Ok_0 as int),
    {
        let ghost ver = opt_text(version);
        let mut i: usize = 0;
        while i < registry.specs.len()
            invariant
                i <= registry.specs@.len(),
                forall|q: int| 0 <= q < i ==> (#[trigger] registry.specs@[q]).id.0@ != id@,
                ver == opt_text(version),
            decreases registry.specs@.len() - i,
        {
            if str_eq(registry.specs[i].id.as_str(), id) {
                let spec = &registry.specs[i];
                match version {
                    Some(v) => {
                        if !str_eq(spec.version.as_str(), v) {
                            proof {
                                assert forall|k: int| !#[trigger] resolvable(*registry, self.host, id@, ver, k) by {
                                    if resolvable(*registry, self.host, id@, ver, k) && k != i {
                                        if k > i {
                                            assert(registry.specs@[i as int].id.0@ == id@);
                                        }
                                    }
                                }
                            }
                            return Err(SigniaError::with_detail(crate::error::ErrorKind::InvalidArgument, "plugin version mismatch for ", id));
                        }
                    },
                    None => {},
                }
                let ev = evaluate_spec(spec, &self.host);
                if !ev.allowed {
                    proof {
                        assert forall|k: int| !#[trigger] resolvable(*registry, self.host, id@, ver, k) by {
                            if resolvable(*registry, self.host, id@, ver, k) && k != i {
                                if k < i {
                                } else {
                                    assert(registry.specs@[i as int].id.0@ == id@);
                                }
                            }
                        }
                    }
                    return Err(SigniaError::with_detail(crate::error::ErrorKind::InvalidArgument, "plugin is not allowed under host capabilities: ", id));
                }
                assert(resolvable(*registry, self.host, id@, ver, i as int));
                return Ok(i);
            }
            i = i + 1;
        }
        proof {
            assert forall|k: int| !#[trigger] resolvable(*registry, self.host, id@, ver, k) by {
                if resolvable(*registry, self.host, id@, ver, k) {
                    assert(registry.specs@[k].id.0@ == id@);
                }
            }
        }
        Err(SigniaError::with_detail(crate::error::ErrorKind::NotFound, "plugin not found: ", id))
    }

    /// The single allowed plugin that supports the input kind.
    pub fn dispatch(&self, registry: &PluginRegistry, kind: &str) -> (r: Result<usize, SigniaError>)
        ensures
            r is Ok ==> r->Ok_0 < registry.specs@.len() && supports_kind(registry.specs@[r->Ok_0 as int], kind@)
                && missing_wants(registry.specs@[r->Ok_0 as int].wants@, self.host).len() == 0
                && forall|j: int| 0 <= j < registry.specs@.len() && j != r->Ok_0 ==> !supports_kind(#[trigger] registry.specs@[j], kind@),
            (forall|j: int| 0 <= j < registry.specs@.len() ==> !supports_kind(#[trigger] registry.specs@[j], kind@)) ==> r is Err,
            r is Ok <==> exists|k: int| #[trigger] dispatchable(*registry, self.host, kind@, k),
    {
        let mut found: Option<usize> = None;
        let mut i: usize = 0;
        while i < registry.specs.len()
            invariant
                i <= registry.specs@.len(),
                found is None ==> forall|j: int| 0 <= j < i ==> !supports_kind(#[trigger] registry.specs@[j], kind@),
                found is Some ==> found->0 < i && supports_kind(registry.specs@[found->0 as int], kind@)
                    && forall|j: int| 0 <= j < i && j != found->0 ==> !supports_kind(#[trigger] registry.specs@[j], kind@),
            decreases registry.specs@.len() - i,
        {
            if registry.specs[i].supports_type(kind) {
                if found.is_some() {
                    proof {
                        let f = found->0 as int;
                        assert forall|k: int| !#[trigger] dispatchable(*registry, self.host, kind@, k) by {
                            if dispatchable(*registry, self.host, kind@, k) {
                                if k != f {
                                    assert(!supports_kind(registry.specs@[f], kind@));
                                } else {
                                    assert(!supports_kind(registry.specs@[i as int], kind@));
                                }
                            }
                        }
                    }
                    return Err(SigniaError::invalid_argument("more than one plugin supports the input kind"));
                }
                found = Some(i);
            }
            i = i + 1;
        }
        match found {
            Some(k) => {
                let ev = evaluate_spec(&registry.specs[k], &self.host);
                if !ev.allowed {
                    proof {
                        assert forall|q: int| !#[trigger] dispatchable(*registry, self.host, kind@, q) by {
                            if dispatchable(*registry, self.host, kind@, q) && q != k {
                                assert(!supports_kind(registry.specs@[k as int], kind@));
                            }
                        }
                    }
                    return Err(SigniaError::invalid_argument("plugin is not allowed under host capabilities"));
                }
                assert(dispatchable(*registry, self.host, kind@, k as int));
                Ok(k)
            },
            None => {
                proof {
                    assert forall|q: int| !#[trigger] dispatchable(*registry, self.host, kind@, q) by {
                        if dispatchable(*registry, self.host, kind@, q) {
                            assert(supports_kind(registry.specs@[q], kind@));
                        }
                    }
                }
                Err(SigniaError::with_detail(crate::error::ErrorKind::NotFound, "no plugin supports kind: ", kind))
            },
        }
    }
}
} // verus!
