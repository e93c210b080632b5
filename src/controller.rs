//! The decisions of the controller that runs a broker cluster: how pods are
//! classified, which are demoted, torn down or created, how each pod is
//! labelled and which services must exist. Talking to the cluster is left
//! to the caller.
use vstd::prelude::*;
use crate::agents::{text_equal, VirtualAgentModeDto};
use crate::hex_text::{hex_encode, hex_lower};

verus! {

pub const LABEL_CLUSTER_NAME: &'static str = "megaphone-cluster";
pub const LABEL_SVC_CLUSTER_NAME: &'static str = "svc-megaphone-cluster";
pub const LABEL_NODE_NAME: &'static str = "megaphone-node";
pub const LABEL_ACCEPTS_NEW_CHANNELS: &'static str = "accepts-new-channels";
pub const LABEL_VALUE_ON: &'static str = "ON";
pub const LABEL_VALUE_OFF: &'static str = "OFF";
pub const WORKLOAD_FINALIZER: &'static str = "megaphone.d71.dev";

/// Where a pod stands in a rollout.
#[derive(Clone, Copy, Debug, PartialEq, Eq, Structural)]
pub enum MegaphonePodStatus {
    Active,
    WarmingUp,
    TearingDown,
    QueuedForTearDown,
    QueuedForAbort,
}

pub struct ResourceConstraints {
    pub cpu: Option<String>,
    pub memory: Option<String>,
}

pub struct ResourcesSpec {
    pub limits: Option<ResourceConstraints>,
    pub requests: Option<ResourceConstraints>,
}

/// The desired state of a cluster.
pub struct MegaphoneSpec {
    pub image: String,
    pub replicas: usize,
    pub virtual_agents_per_node: usize,
    pub resources: Option<ResourcesSpec>,
}

/// What the controller reads of the broker container of a pod.
pub struct ContainerView {
    pub image: Option<String>,
    pub limits: Option<Vec<(String, String)>>,
    pub requests: Option<Vec<(String, String)>>,
}

/// What the controller reads of a pod.
pub struct PodView {
    pub name: String,
    pub labels: Vec<(String, String)>,
    /// The container named `megaphone`, if the pod has one.
    pub container: Option<ContainerView>,
}

/// The value under `key` in a list of pairs: the first one.
pub open spec fn lookup(m: Seq<(String, String)>, key: Seq<char>) -> Option<Seq<char>>
    decreases m.len(),
{
    if m.len() == 0 {
        None
    } else if m[0].0@ == key {
        Some(m[0].1@)
    } else {
        lookup(m.drop_first(), key)
    }
}

/// The value under `key` in a list of pairs.
pub fn lookup_value(m: &Vec<(String, String)>, key: &str) -> (r: Option<String>)
    ensures
        r is None <==> lookup(m@, key@) is None,
        r matches Some(v) ==> lookup(m@, key@) == Some(v@),
{
    let mut i: usize = 0;
    assert(m@.subrange(0, m@.len() as int) =~= m@);
    while i < m.len()
        invariant
            i <= m@.len(),
            lookup(m@.subrange(i as int, m@.len() as int), key@) == lookup(m@, key@),
        decreases m@.len() - i,
    {
        let ghost rest = m@.subrange(i as int, m@.len() as int);
        assert(rest.drop_first() =~= m@.subrange(i + 1, m@.len() as int));
        if text_equal(m[i].0.as_str(), key) {
            return Some(m[i].1.clone());
        }
        i = i + 1;
    }
    assert(m@.subrange(m@.len() as int, m@.len() as int) =~= Seq::<(String, String)>::empty());
    None
}

/// A resource quantity holds when the pod does not report it, the spec does
/// not ask for it, or the two agree.
pub open spec fn quantity_ok(current: Option<Seq<char>>, required: Option<String>) -> bool {
    match (current, required) {
        (Some(c), Some(q)) => c == q@,
        _ => true,
    }
}

/// Both quantities of a constraint hold against a pod's resource map.
pub open spec fn constraints_ok(current: Option<Vec<(String, String)>>, required: Option<ResourceConstraints>) -> bool {
    match (current, required) {
        (Some(m), Some(c)) => quantity_ok(lookup(m@, "cpu"@), c.cpu) && quantity_ok(lookup(m@, "memory"@), c.memory),
        _ => true,
    }
}

/// A pod satisfies the spec when its broker container runs the spec's image
/// and its resource limits and requests agree with those the spec names.
pub open spec fn satisfies(spec: MegaphoneSpec, pod: PodView) -> bool {
    match pod.container {
        None => false,
        Some(c) => {
            &&& c.image matches Some(i) && i@ == spec.image@
            &&& match spec.resources {
                None => true,
                Some(res) => constraints_ok(c.limits, res.limits) && constraints_ok(
                    c.requests,
                    res.requests,
                ),
            }
        },
    }
}

fn option_text_equal(a: &Option<String>, b: &String) -> (r: bool)
    ensures
        r == (a matches Some(x) && x@ == b@),
{
    match a {
        Some(x) => text_equal(x.as_str(), b.as_str()),
        None => false,
    }
}

fn quantity_holds(current: &Vec<(String, String)>, key: &str, required: &Option<String>) -> (r: bool)
    ensures
        r == quantity_ok(lookup(current@, key@), *required),
{
    match (lookup_value(current, key), required) {
        (Some(c), Some(q)) => text_equal(c.as_str(), q.as_str()),
        _ => true,
    }
}

fn constraints_hold(current: &Option<Vec<(String, String)>>, required: &Option<ResourceConstraints>) -> (r: bool)
    ensures
        r == constraints_ok(*current, *required),
{
    proof {
        reveal_strlit("cpu");
        reveal_strlit("memory");
    }
    match (current, required) {
        (Some(m), Some(c)) => quantity_holds(m, "cpu", &c.cpu) && quantity_holds(m, "memory", &c.memory),
        _ => true,
    }
}

impl MegaphoneSpec {
    /// Whether a pod runs what the spec asks for.
    pub fn is_satisfied_by_pod(&self, pod: &PodView) -> (r: bool)
        ensures
            r == satisfies(*self, *pod),
    {
        let c = match &pod.container {
            None => {
                return false;
            },
            Some(c) => c,
        };
        if !option_text_equal(&c.image, &self.image) {
            return false;
        }
        match &self.resources {
            None => true,
            Some(res) => constraints_hold(&c.limits, &res.limits) && constraints_hold(
                &c.requests,
                &res.requests,
            ),
        }
    }
}

/// The status of a pod from whether it takes new channels and whether it
/// runs the spec.
pub open spec fn classify(accepts: bool, satisfies: bool) -> MegaphonePodStatus {
    match (accepts, satisfies) {
        (true, true) => MegaphonePodStatus::Active,
        (true, false) => MegaphonePodStatus::QueuedForTearDown,
        (false, true) => MegaphonePodStatus::WarmingUp,
        (false, false) => MegaphonePodStatus::TearingDown,
    }
}

pub fn classify_pod(accepts_new_channels: bool, satisfies_spec: bool) -> (r: MegaphonePodStatus)
    ensures
        r == classify(accepts_new_channels, satisfies_spec),
{
    match (accepts_new_channels, satisfies_spec) {
        (true, true) => MegaphonePodStatus::Active,
        (true, false) => MegaphonePodStatus::QueuedForTearDown,
        (false, true) => MegaphonePodStatus::WarmingUp,
        (false, false) => MegaphonePodStatus::TearingDown,
    }
}

/// A pod takes new channels when its label says `ON`.
pub open spec fn accepts_new(pod: PodView) -> bool {
    lookup(pod.labels@, LABEL_ACCEPTS_NEW_CHANNELS@) == Some(LABEL_VALUE_ON@)
}

pub fn accepts_new_channels(pod: &PodView) -> (r: bool)
    ensures
        r == accepts_new(*pod),
{
    match lookup_value(&pod.labels, LABEL_ACCEPTS_NEW_CHANNELS) {
        Some(v) => text_equal(v.as_str(), LABEL_VALUE_ON),
        None => false,
    }
}

/// The status of a pod under a spec.
pub fn determine_pod_status(spec: &MegaphoneSpec, pod: &PodView) -> (r: MegaphonePodStatus)
    ensures
        r == classify(accepts_new(*pod), satisfies(*spec, *pod)),
{
    classify_pod(accepts_new_channels(pod), spec.is_satisfied_by_pod(pod))
}

pub open spec fn is_alnum(c: char) -> bool {
    ('0' <= c && c <= '9') || ('a' <= c && c <= 'z') || ('A' <= c && c <= 'Z')
}

/// `megaphone-X` followed by `suffix`, with `X` one or more of `[A-Za-z0-9]`.
pub open spec fn is_agent_label(k: Seq<char>, suffix: Seq<char>) -> bool {
    &&& k.len() >= 10 + suffix.len() + 1
    &&& k.subrange(0, 10) == "megaphone-"@
    &&& k.subrange(k.len() - suffix.len(), k.len() as int) == suffix
    &&& forall|i: int| 10 <= i < k.len() - suffix.len() ==> is_alnum(#[trigger] k[i])
}

/// `megaphone-X-read` or `megaphone-X-write` with `X` one or more of
/// `[A-Za-z0-9]`, or `accepts-new-channels`.
pub open spec fn is_connection_label(k: Seq<char>) -> bool {
    k == LABEL_ACCEPTS_NEW_CHANNELS@ || is_agent_label(k, "-read"@) || is_agent_label(k, "-write"@)
}

proof fn lemma_literals()
    ensures
        LABEL_ACCEPTS_NEW_CHANNELS@.len() == 20,
        "megaphone-"@.len() == 10,
        "-read"@.len() == 5,
        "-write"@.len() == 6,
{
    reveal_strlit("accepts-new-channels");
    reveal_strlit("megaphone-");
    reveal_strlit("-read");
    reveal_strlit("-write");
}

fn all_alnum(s: &str, from: usize, to: usize) -> (r: bool)
    requires
        from <= to <= s@.len(),
    ensures
        r == forall|i: int| from <= i < to ==> is_alnum(#[trigger] s@[i]),
{
    let mut i: usize = from;
    while i < to
        invariant
            from <= i <= to <= s@.len(),
            forall|j: int| from <= j < i ==> is_alnum(#[trigger] s@[j]),
        decreases to - i,
    {
        let c = s.get_char(i);
        if !(('0' <= c && c <= '9') || ('a' <= c && c <= 'z') || ('A' <= c && c <= 'Z')) {
            return false;
        }
        i = i + 1;
    }
    true
}

fn ends_as_agent_label(k: &str, suffix: &str) -> (r: bool)
    requires
        suffix@ == "-read"@ || suffix@ == "-write"@,
    ensures
        r == is_agent_label(k@, suffix@),
{
    proof {
        lemma_literals();
    }
    let n = k.unicode_len();
    let m = suffix.unicode_len();
    if n < 10 + m + 1 {
        return false;
    }
    text_equal(k.substring_char(0, 10), "megaphone-") && text_equal(k.substring_char(n - m, n), suffix)
        && all_alnum(k, 10, n - m)
}

/// Whether a label key is one that keeps a pod reachable.
pub fn is_connection_label_key(k: &str) -> (r: bool)
    ensures
        r == is_connection_label(k@),
{
    proof {
        reveal_strlit("-read");
        reveal_strlit("-write");
    }
    let read = ends_as_agent_label(k, "-read");
    let write = ends_as_agent_label(k, "-write");
    let accepts = text_equal(k, LABEL_ACCEPTS_NEW_CHANNELS);
    accepts || read || write
}

/// Every connection label of the pod is `OFF`: nothing reaches it any more.
pub open spec fn all_connections_off(labels: Seq<(String, String)>) -> bool {
    forall|i: int|
        0 <= i < labels.len() && is_connection_label(#[trigger] labels[i].0@) ==> labels[i].1@
            != LABEL_VALUE_ON@
}

pub fn connections_all_off(labels: &Vec<(String, String)>) -> (r: bool)
    ensures
        r == all_connections_off(labels@),
{
    let mut i: usize = 0;
    while i < labels.len()
        invariant
            i <= labels@.len(),
            forall|j: int|
                0 <= j < i && is_connection_label(#[trigger] labels@[j].0@) ==> labels@[j].1@
                    != LABEL_VALUE_ON@,
        decreases labels@.len() - i,
    {
        if is_connection_label_key(labels[i].0.as_str()) && text_equal(labels[i].1.as_str(), LABEL_VALUE_ON) {
            return false;
        }
        i = i + 1;
    }
    true
}

/// Lexicographic order on texts.
pub open spec fn text_le(a: Seq<char>, b: Seq<char>) -> bool
    decreases a.len(),
{
    if a.len() == 0 {
        true
    } else if b.len() == 0 {
        false
    } else if a[0] != b[0] {
        a[0] < b[0]
    } else {
        text_le(a.drop_first(), b.drop_first())
    }
}

proof fn lemma_text_le_total(a: Seq<char>, b: Seq<char>)
    ensures
        text_le(a, b) || text_le(b, a),
    decreases a.len(),
{
    if a.len() > 0 && b.len() > 0 && a[0] == b[0] {
        lemma_text_le_total(a.drop_first(), b.drop_first());
    }
}

/// Whether `a` comes no later than `b` in lexicographic order.
pub fn text_less_eq(a: &str, b: &str) -> (r: bool)
    ensures
        r == text_le(a@, b@),
{
    let n = a.unicode_len();
    let m = b.unicode_len();
    let mut i: usize = 0;
    assert(a@.subrange(0, n as int) =~= a@);
    assert(b@.subrange(0, m as int) =~= b@);
    while i < n && i < m && a.get_char(i) == b.get_char(i)
        invariant
            i <= n,
            i <= m,
            n == a@.len(),
            m == b@.len(),
            text_le(a@, b@) == text_le(a@.subrange(i as int, n as int), b@.subrange(i as int, m as int)),
        decreases n - i,
    {
        let ghost sa = a@.subrange(i as int, n as int);
        let ghost sb = b@.subrange(i as int, m as int);
        assert(sa.drop_first() =~= a@.subrange(i + 1, n as int));
        assert(sb.drop_first() =~= b@.subrange(i + 1, m as int));
        i = i + 1;
    }
    if i == n {
        return true;
    }
    if i == m {
        return false;
    }
    a.get_char(i) < b.get_char(i)
}

/// The pods of a cluster, by position in the listing, in each status.
pub struct ClusterStatus {
    pub active: Vec<usize>,
    pub warming_up: Vec<usize>,
    pub tearing_down: Vec<usize>,
    pub queued_for_tear_down: Vec<usize>,
    pub queued_for_abort: Vec<usize>,
}

/// The positions hold pods in name order.
pub open spec fn sorted_by_name(pods: Seq<PodView>, idx: Seq<usize>) -> bool {
    &&& forall|k: int| 0 <= k < idx.len() ==> #[trigger] idx[k] < pods.len()
    &&& forall|k: int|
        0 <= k < idx.len() - 1 ==> text_le(pods[#[trigger] idx[k] as int].name@, pods[idx[k + 1] as int].name@)
}

/// Orders positions by the names of their pods.
#[verifier::spinoff_prover]
#[verifier::rlimit(40)]
pub fn sort_by_name(pods: &[PodView], idx: Vec<usize>) -> (r: Vec<usize>)
    requires
        forall|k: int| 0 <= k < idx@.len() ==> #[trigger] idx@[k] < pods@.len(),
    ensures
        r@.len() == idx@.len(),
        sorted_by_name(pods@, r@),
        forall|k: int| 0 <= k < idx@.len() ==> r@.contains(#[trigger] idx@[k]),
        forall|k: int| 0 <= k < r@.len() ==> idx@.contains(#[trigger] r@[k]),
{
    let mut out: Vec<usize> = Vec::new();
    let mut i: usize = 0;
    while i < idx.len()
        invariant
            i <= idx@.len(),
            forall|k: int| 0 <= k < idx@.len() ==> #[trigger] idx@[k] < pods@.len(),
            out@.len() == i,
            sorted_by_name(pods@, out@),
            forall|k: int| 0 <= k < i ==> out@.contains(#[trigger] idx@[k]),
            forall|k: int| 0 <= k < out@.len() ==> idx@.subrange(0, i as int).contains(#[trigger] out@[k]),
        decreases idx@.len() - i,
    {
        let x = idx[i];
        let mut p: usize = 0;
        while p < out.len() && text_less_eq(pods[out[p]].name.as_str(), pods[x].name.as_str())
            invariant
                p <= out@.len(),
                x < pods@.len(),
                sorted_by_name(pods@, out@),
                forall|k: int| 0 <= k < p ==> text_le(pods@[#[trigger] out@[k] as int].name@, pods@[x as int].name@),
            decreases out@.len() - p,
        {
            p = p + 1;
        }
        let ghost before = out@;
        out.insert(p, x);
        proof {
            assert(out@ == before.insert(p as int, x));
            if p < before.len() {
                lemma_text_le_total(pods@[before[p as int] as int].name@, pods@[x as int].name@);
            }
            assert forall|k: int| 0 <= k < out@.len() - 1 implies text_le(
                pods@[#[trigger] out@[k] as int].name@,
                pods@[out@[k + 1] as int].name@,
            ) by {
                if k < p as int - 1 {
                    assert(out@[k] == before[k] && out@[k + 1] == before[k + 1]);
                } else if k == p as int - 1 {
                    assert(out@[k] == before[k] && out@[k + 1] == x);
                } else if k == p as int {
                    assert(out@[k] == x && out@[k + 1] == before[k]);
                } else {
                    assert(out@[k] == before[k - 1] && out@[k + 1] == before[k]);
                }
            }
            assert forall|k: int| 0 <= k < out@.len() implies #[trigger] out@[k] < pods@.len() by {
                if k < p { assert(out@[k] == before[k]); } else if k > p { assert(out@[k] == before[k - 1]); }
            }
            assert forall|k: int| 0 <= k < i + 1 implies out@.contains(#[trigger] idx@[k]) by {
                if k < i {
                    let w = choose|w: int| 0 <= w < before.len() && before[w] == idx@[k];
                    if w < p { assert(out@[w] == idx@[k]); } else { assert(out@[w + 1] == idx@[k]); }
                } else {
                    assert(out@[p as int] == idx@[k]);
                }
            }
            assert forall|k: int| 0 <= k < out@.len() implies idx@.subrange(0, i + 1).contains(
                #[trigger] out@[k],
            ) by {
                if k == p {
                    assert(idx@.subrange(0, i + 1)[i as int] == x);
                } else {
                    let b = if k < p { k } else { k - 1 };
                    assert(out@[k] == before[b]);
                    let w = choose|w: int| 0 <= w < i && idx@.subrange(0, i as int)[w] == before[b];
                    assert(idx@.subrange(0, i + 1)[w] == before[b]);
                }
            }
        }
        i = i + 1;
    }
    proof {
        assert(idx@.subrange(0, idx@.len() as int) =~= idx@);
    }
    out
}

/// Takes the first `n` positions of `src` (all of them when it has fewer)
/// and appends them to `dst`.
fn move_front(src: &mut Vec<usize>, dst: &mut Vec<usize>, n: usize) -> (moved: usize)
    ensures
        moved == (if n < old(src)@.len() { n } else { old(src)@.len() as usize }),
        final(src)@ == old(src)@.subrange(moved as int, old(src)@.len() as int),
        final(dst)@ == old(dst)@ + old(src)@.subrange(0, moved as int),
{
    let moved: usize = if n < src.len() { n } else { src.len() };
    let mut k: usize = 0;
    while k < moved
        invariant
            k <= moved <= old(src)@.len(),
            src@ == old(src)@.subrange(k as int, old(src)@.len() as int),
            dst@ == old(dst)@ + old(src)@.subrange(0, k as int),
        decreases moved - k,
    {
        let x = src.remove(0);
        assert(src@ =~= old(src)@.subrange(k + 1, old(src)@.len() as int));
        dst.push(x);
        assert(dst@ =~= old(dst)@ + old(src)@.subrange(0, k + 1));
        k = k + 1;
    }
    moved
}

/// How many pods a spec classifies with a status.
pub open spec fn count_class(spec: MegaphoneSpec, pods: Seq<PodView>, st: MegaphonePodStatus) -> nat
    decreases pods.len(),
{
    if pods.len() == 0 {
        0
    } else {
        count_class(spec, pods.drop_last(), st) + (if classify(
            accepts_new(pods.last()),
            satisfies(spec, pods.last()),
        ) == st {
            1nat
        } else {
            0nat
        })
    }
}

/// How many alive pods exceed the replicas.
pub open spec fn excess(spec: MegaphoneSpec, pods: Seq<PodView>) -> int {
    let alive = count_class(spec, pods, MegaphonePodStatus::Active) + count_class(
        spec,
        pods,
        MegaphonePodStatus::WarmingUp,
    );
    if alive > spec.replicas { alive - spec.replicas } else { 0 }
}

/// How many warming-up pods are aborted.
pub open spec fn aborted(spec: MegaphoneSpec, pods: Seq<PodView>) -> int {
    let w = count_class(spec, pods, MegaphonePodStatus::WarmingUp) as int;
    if excess(spec, pods) < w { excess(spec, pods) } else { w }
}

/// Every position in `s` holds a listed pod of class `c`.
pub open spec fn all_class(spec: MegaphoneSpec, pods: Seq<PodView>, s: Seq<usize>, c: MegaphonePodStatus) -> bool {
    forall|k: int|
        0 <= k < s.len() ==> #[trigger] s[k] < pods.len() && classify(
            accepts_new(pods[s[k] as int]),
            satisfies(spec, pods[s[k] as int]),
        ) == c
}

proof fn lemma_class_kept(spec: MegaphoneSpec, pods: Seq<PodView>, idx: Seq<usize>, r: Seq<usize>, c: MegaphonePodStatus)
    requires
        all_class(spec, pods, idx, c),
        forall|k: int| 0 <= k < r.len() ==> idx.contains(#[trigger] r[k]),
    ensures
        all_class(spec, pods, r, c),
{
    assert forall|k: int| 0 <= k < r.len() implies #[trigger] r[k] < pods.len() && classify(
        accepts_new(pods[r[k] as int]),
        satisfies(spec, pods[r[k] as int]),
    ) == c by {
        assert(idx.contains(r[k]));
        let w = choose|w: int| 0 <= w < idx.len() && idx[w] == r[k];
        assert(idx[w] < pods.len());
    }
}

/// What grouping the pods of a cluster yields: see `determine_cluster_status`.
#[verifier::opaque]
pub open spec fn grouped(spec: MegaphoneSpec, pods: Seq<PodView>, st: ClusterStatus) -> bool {
    &&& st.active@.len() + st.warming_up@.len() + st.tearing_down@.len() + st.queued_for_tear_down@.len()
            + st.queued_for_abort@.len() == pods.len()
    &&& st.active@.len() + st.warming_up@.len() <= spec.replicas
    &&& forall|k: int|
            0 <= k < st.active@.len() ==> #[trigger] st.active@[k] < pods.len() && classify(
                accepts_new(pods[st.active@[k] as int]),
                satisfies(spec, pods[st.active@[k] as int]),
            ) == MegaphonePodStatus::Active
    &&& forall|k: int|
            0 <= k < st.warming_up@.len() ==> #[trigger] st.warming_up@[k] < pods.len() && classify(
                accepts_new(pods[st.warming_up@[k] as int]),
                satisfies(spec, pods[st.warming_up@[k] as int]),
            ) == MegaphonePodStatus::WarmingUp
    &&& forall|k: int|
            0 <= k < st.tearing_down@.len() ==> #[trigger] st.tearing_down@[k] < pods.len() && classify(
                accepts_new(pods[st.tearing_down@[k] as int]),
                satisfies(spec, pods[st.tearing_down@[k] as int]),
            ) == MegaphonePodStatus::TearingDown
    &&& forall|k: int| 0 <= k < st.queued_for_tear_down@.len() ==> #[trigger] st.queued_for_tear_down@[k] < pods.len()
    &&& forall|k: int| 0 <= k < st.queued_for_abort@.len() ==> #[trigger] st.queued_for_abort@[k] < pods.len()
    &&& sorted_by_name(pods, st.active@)
    &&& sorted_by_name(pods, st.warming_up@)
    &&& sorted_by_name(pods, st.tearing_down@)
    &&& st.queued_for_abort@.len() == aborted(spec, pods)
    &&& st.warming_up@.len() == count_class(spec, pods, MegaphonePodStatus::WarmingUp) - aborted(
            spec,
            pods,
        )
    &&& st.active@.len() == count_class(spec, pods, MegaphonePodStatus::Active) - (excess(
            spec,
            pods,
        ) - aborted(spec, pods))
    &&& st.tearing_down@.len() == count_class(spec, pods, MegaphonePodStatus::TearingDown)
    &&& sorted_by_name(pods, st.queued_for_abort@ + st.warming_up@)
    &&& excess(spec, pods) - aborted(spec, pods) <= st.queued_for_tear_down@.len()
    &&& sorted_by_name(
        pods,
        st.queued_for_tear_down@.subrange(
            st.queued_for_tear_down@.len() - (excess(spec, pods) - aborted(spec, pods)),
            st.queued_for_tear_down@.len() as int,
        ) + st.active@,
    )
    &&& all_class(spec, pods, st.queued_for_abort@, MegaphonePodStatus::WarmingUp)
    &&& all_class(
        spec,
        pods,
        st.queued_for_tear_down@.subrange(
            0,
            st.queued_for_tear_down@.len() - (excess(spec, pods) - aborted(spec, pods)),
        ),
        MegaphonePodStatus::QueuedForTearDown,
    )
    &&& sorted_by_name(
        pods,
        st.queued_for_tear_down@.subrange(
            0,
            st.queued_for_tear_down@.len() - (excess(spec, pods) - aborted(spec, pods)),
        ),
    )
    &&& all_class(
        spec,
        pods,
        st.queued_for_tear_down@.subrange(
            st.queued_for_tear_down@.len() - (excess(spec, pods) - aborted(spec, pods)),
            st.queued_for_tear_down@.len() as int,
        ),
        MegaphonePodStatus::Active,
    )
    &&& forall|p: usize|
        p < pods.len() ==> #[trigger] st.active@.contains(p) || st.warming_up@.contains(p)
            || st.tearing_down@.contains(p) || st.queued_for_tear_down@.contains(p)
            || st.queued_for_abort@.contains(p)
}

/// Groups the pods of a cluster by status, each group in name order, then
/// demotes the pods alive beyond the number of replicas: warming-up pods
/// first, to be aborted, then active ones, to be torn down, in name order.
#[verifier::spinoff_prover]
#[verifier::rlimit(40)]
pub fn determine_cluster_status(spec: &MegaphoneSpec, pods: &[PodView]) -> (r: ClusterStatus)
    ensures
        grouped(*spec, pods@, r),
{
    let mut active: Vec<usize> = Vec::new();
    let mut warming: Vec<usize> = Vec::new();
    let mut tearing: Vec<usize> = Vec::new();
    let mut queued: Vec<usize> = Vec::new();
    let mut i: usize = 0;
    while i < pods.len()
        invariant
            i <= pods@.len(),
            active@.len() + warming@.len() + tearing@.len() + queued@.len() == i,
            forall|k: int| 0 <= k < active@.len() ==> #[trigger] active@[k] < pods@.len() && classify(
                accepts_new(pods@[active@[k] as int]),
                satisfies(*spec, pods@[active@[k] as int]),
            ) == MegaphonePodStatus::Active,
            forall|k: int| 0 <= k < warming@.len() ==> #[trigger] warming@[k] < pods@.len() && classify(
                accepts_new(pods@[warming@[k] as int]),
                satisfies(*spec, pods@[warming@[k] as int]),
            ) == MegaphonePodStatus::WarmingUp,
            forall|k: int| 0 <= k < tearing@.len() ==> #[trigger] tearing@[k] < pods@.len() && classify(
                accepts_new(pods@[tearing@[k] as int]),
                satisfies(*spec, pods@[tearing@[k] as int]),
            ) == MegaphonePodStatus::TearingDown,
            forall|k: int| 0 <= k < queued@.len() ==> #[trigger] queued@[k] < pods@.len() && classify(
                accepts_new(pods@[queued@[k] as int]),
                satisfies(*spec, pods@[queued@[k] as int]),
            ) == MegaphonePodStatus::QueuedForTearDown,
            forall|p: usize|
                p < i ==> #[trigger] active@.contains(p) || warming@.contains(p) || tearing@.contains(p)
                    || queued@.contains(p),
            active@.len() == count_class(*spec, pods@.subrange(0, i as int), MegaphonePodStatus::Active),
            warming@.len() == count_class(*spec, pods@.subrange(0, i as int), MegaphonePodStatus::WarmingUp),
            tearing@.len() == count_class(*spec, pods@.subrange(0, i as int), MegaphonePodStatus::TearingDown),
        decreases pods@.len() - i,
    {
        assert(pods@.subrange(0, i + 1).drop_last() =~= pods@.subrange(0, i as int));
        assert(pods@.subrange(0, i + 1).last() == pods@[i as int]);
        let ghost (a0, w0, t0, q0) = (active@, warming@, tearing@, queued@);
        match determine_pod_status(spec, &pods[i]) {
            MegaphonePodStatus::Active => active.push(i),
            MegaphonePodStatus::WarmingUp => warming.push(i),
            MegaphonePodStatus::TearingDown => tearing.push(i),
            _ => queued.push(i),
        }
        proof {
            assert(active@.contains(i) || warming@.contains(i) || tearing@.contains(i) || queued@.contains(i)) by {
                if active@.len() > a0.len() { assert(active@[a0.len() as int] == i); }
                if warming@.len() > w0.len() { assert(warming@[w0.len() as int] == i); }
                if tearing@.len() > t0.len() { assert(tearing@[t0.len() as int] == i); }
                if queued@.len() > q0.len() { assert(queued@[q0.len() as int] == i); }
            }
            assert forall|p: usize| p < i + 1 implies #[trigger] active@.contains(p) || warming@.contains(p)
                || tearing@.contains(p) || queued@.contains(p) by {
                if p < i {
                    if a0.contains(p) { let w = choose|w: int| 0 <= w < a0.len() && a0[w] == p; assert(active@[w] == p); }
                    if w0.contains(p) { let w = choose|w: int| 0 <= w < w0.len() && w0[w] == p; assert(warming@[w] == p); }
                    if t0.contains(p) { let w = choose|w: int| 0 <= w < t0.len() && t0[w] == p; assert(tearing@[w] == p); }
                    if q0.contains(p) { let w = choose|w: int| 0 <= w < q0.len() && q0[w] == p; assert(queued@[w] == p); }
                }
            }
        }
        i = i + 1;
    }
    assert(pods@.subrange(0, pods@.len() as int) =~= pods@);
    let ghost (ua, uw, ut, uq) = (active@, warming@, tearing@, queued@);
    let mut active = sort_by_name(pods, active);
    let mut warming = sort_by_name(pods, warming);
    let tearing = sort_by_name(pods, tearing);
    let mut queued = sort_by_name(pods, queued);
    let mut abort: Vec<usize> = Vec::new();
    let ghost (sa, sw, st0, sq) = (active@, warming@, tearing@, queued@);
    proof {
        assert(all_class(*spec, pods@, uq, MegaphonePodStatus::QueuedForTearDown));
        assert(all_class(*spec, pods@, ua, MegaphonePodStatus::Active));
        assert(all_class(*spec, pods@, uw, MegaphonePodStatus::WarmingUp));
        lemma_class_kept(*spec, pods@, uq, sq, MegaphonePodStatus::QueuedForTearDown);
        lemma_class_kept(*spec, pods@, ua, sa, MegaphonePodStatus::Active);
        lemma_class_kept(*spec, pods@, uw, sw, MegaphonePodStatus::WarmingUp);
    }
    proof {
        assert forall|p: usize| p < pods@.len() implies #[trigger] sa.contains(p) || sw.contains(p)
            || st0.contains(p) || sq.contains(p) by {
            assert(ua.contains(p) || uw.contains(p) || ut.contains(p) || uq.contains(p));
            if ua.contains(p) { let k = choose|k: int| 0 <= k < ua.len() && ua[k] == p; assert(sa.contains(ua[k])); }
            if uw.contains(p) { let k = choose|k: int| 0 <= k < uw.len() && uw[k] == p; assert(sw.contains(uw[k])); }
            if ut.contains(p) { let k = choose|k: int| 0 <= k < ut.len() && ut[k] == p; assert(st0.contains(ut[k])); }
            if uq.contains(p) { let k = choose|k: int| 0 <= k < uq.len() && uq[k] == p; assert(sq.contains(uq[k])); }
        }
    }
    let alive_count = active.len() + warming.len();
    if alive_count > spec.replicas {
        let excess = alive_count - spec.replicas;
        let from_warming = move_front(&mut warming, &mut abort, excess);
        let from_active = move_front(&mut active, &mut queued, excess - from_warming);
        proof {
            assert forall|k: int| 0 <= k < warming@.len() implies #[trigger] warming@[k] < pods@.len() by {}
            assert(abort@ + warming@ =~= sw);
            assert(queued@.subrange(queued@.len() - from_active, queued@.len() as int) + active@ =~= sa);
            assert(queued@.subrange(0, queued@.len() - from_active) =~= sq);
            assert(queued@.subrange(queued@.len() - from_active, queued@.len() as int) =~= sa.take(from_active as int));
            assert(abort@ =~= sw.take(from_warming as int));
            assert forall|k: int| 0 <= k < abort@.len() implies #[trigger] abort@[k] < pods@.len() && classify(
                accepts_new(pods@[abort@[k] as int]),
                satisfies(*spec, pods@[abort@[k] as int]),
            ) == MegaphonePodStatus::WarmingUp by {
                assert(abort@[k] == sw[k]);
            }
            let tail = queued@.subrange(queued@.len() - from_active, queued@.len() as int);
            assert forall|k: int| 0 <= k < tail.len() implies #[trigger] tail[k] < pods@.len() && classify(
                accepts_new(pods@[tail[k] as int]),
                satisfies(*spec, pods@[tail[k] as int]),
            ) == MegaphonePodStatus::Active by {
                assert(tail[k] == sa[k]);
            }
            assert forall|p: usize| sa.contains(p) implies #[trigger] active@.contains(p) || queued@.contains(p) by {
                let w = choose|w: int| 0 <= w < sa.len() && sa[w] == p;
                if w < from_active { assert(queued@[sq.len() + w] == p); } else { assert(active@[w - from_active] == p); }
            }
            assert forall|p: usize| sw.contains(p) implies #[trigger] warming@.contains(p) || abort@.contains(p) by {
                let w = choose|w: int| 0 <= w < sw.len() && sw[w] == p;
                if w < from_warming { assert(abort@[w] == p); } else { assert(warming@[w - from_warming] == p); }
            }
            assert forall|p: usize| sq.contains(p) implies #[trigger] queued@.contains(p) by {
                let w = choose|w: int| 0 <= w < sq.len() && sq[w] == p;
                assert(queued@[w] == p);
            }
        }
    } else {
        proof {
            assert(abort@ + warming@ =~= warming@);
            assert(queued@.subrange(queued@.len() as int, queued@.len() as int) + active@ =~= active@);
            assert(queued@.subrange(0, queued@.len() as int) =~= sq);
            assert(queued@.subrange(queued@.len() as int, queued@.len() as int) =~= Seq::<usize>::empty());
        }
    }
    let r = ClusterStatus {
        active,
        warming_up: warming,
        tearing_down: tearing,
        queued_for_tear_down: queued,
        queued_for_abort: abort,
    };
    proof {
        reveal(grouped);
    }
    r
}

/// A grouping holds valid positions of torn-down pods and no more pods than
/// were listed.
pub proof fn lemma_grouped_bounds(spec: MegaphoneSpec, pods: Seq<PodView>, st: ClusterStatus)
    requires
        grouped(spec, pods, st),
    ensures
        forall|k: int| 0 <= k < st.tearing_down@.len() ==> #[trigger] st.tearing_down@[k] < pods.len(),
        st.active@.len() + st.warming_up@.len() + st.tearing_down@.len() + st.queued_for_tear_down@.len()
            + st.queued_for_abort@.len() == pods.len(),
{
    reveal(grouped);
}

/// The surge allowed during a rollout: a quarter of the replicas, at least one.
pub open spec fn max_surge(replicas: usize) -> int {
    if replicas / 4 > 1 { (replicas / 4) as int } else { 1 }
}

/// How many queued pods to tear down now.
pub open spec fn to_delete_count(operational: int, replicas: usize) -> int {
    if operational + max_surge(replicas) < replicas { 0 } else { operational + max_surge(replicas) - replicas }
}

pub fn compute_max_surge(replicas: usize) -> (r: usize)
    ensures
        r == max_surge(replicas),
{
    if replicas / 4 > 1 { replicas / 4 } else { 1 }
}

/// The pods to tear down in a pass, as `tear_down_list` picks them.
pub open spec fn tear_down_spec(st: ClusterStatus, replicas: usize) -> Seq<usize> {
    st.tearing_down@ + (st.queued_for_tear_down@ + st.queued_for_abort@).take(
            (if to_delete_count((st.active@.len() + st.queued_for_tear_down@.len()) as int, replicas) < (
            st.queued_for_tear_down@ + st.queued_for_abort@).len() {
                to_delete_count((st.active@.len() + st.queued_for_tear_down@.len()) as int, replicas)
            } else {
                (st.queued_for_tear_down@ + st.queued_for_abort@).len() as int
            }),
        )
}

/// The pods to tear down in this pass: those already tearing down, then
/// as many of the queued ones (for tear-down, then for abort) as the surge
/// allows beyond the replicas.
#[verifier::spinoff_prover]
#[verifier::rlimit(40)]
pub fn tear_down_list(st: &ClusterStatus, replicas: usize) -> (r: Vec<usize>)
    requires
        st.queued_for_tear_down@.len() + st.queued_for_abort@.len() <= usize::MAX,
    ensures
        r@ == tear_down_spec(*st, replicas),
{
    let surge = compute_max_surge(replicas);
    let operational = st.active.len() as u128 + st.queued_for_tear_down.len() as u128;
    let to_delete: u128 = if operational + (surge as u128) < (replicas as u128) {
        0
    } else {
        operational + (surge as u128) - (replicas as u128)
    };
    let mut out: Vec<usize> = Vec::new();
    let mut i: usize = 0;
    while i < st.tearing_down.len()
        invariant
            i <= st.tearing_down@.len(),
            out@ == st.tearing_down@.subrange(0, i as int),
        decreases st.tearing_down@.len() - i,
    {
        out.push(st.tearing_down[i]);
        assert(out@ =~= st.tearing_down@.subrange(0, i + 1));
        i = i + 1;
    }
    assert(st.tearing_down@.subrange(0, st.tearing_down@.len() as int) =~= st.tearing_down@);
    let ghost queue = st.queued_for_tear_down@ + st.queued_for_abort@;
    let qn = st.queued_for_tear_down.len();
    let total = qn as u128 + st.queued_for_abort.len() as u128;
    let take: usize = if to_delete < total { to_delete as usize } else { total as usize };
    assert(take == (if to_delete_count((st.active@.len() + st.queued_for_tear_down@.len()) as int, replicas) < queue.len() {
        to_delete_count((st.active@.len() + st.queued_for_tear_down@.len()) as int, replicas)
    } else {
        queue.len() as int
    }));
    let mut j: usize = 0;
    assert(out@ =~= st.tearing_down@ + queue.take(0));
    while j < take
        invariant
            j <= take,
            take <= queue.len(),
            qn == st.queued_for_tear_down@.len(),
            queue == st.queued_for_tear_down@ + st.queued_for_abort@,
            out@ == st.tearing_down@ + queue.take(j as int),
        decreases take - j,
    {
        let x = if j < qn { st.queued_for_tear_down[j] } else { st.queued_for_abort[j - qn] };
        assert(x == queue[j as int]);
        out.push(x);
        assert(queue.take(j + 1) =~= queue.take(j as int).push(x));
        assert(out@ =~= st.tearing_down@ + queue.take(j + 1));
        j = j + 1;
    }
    out
}

/// Whether a position is in a list.
fn in_list(v: &Vec<usize>, x: usize) -> (r: bool)
    ensures
        r == v@.contains(x),
{
    let mut i: usize = 0;
    while i < v.len()
        invariant
            i <= v@.len(),
            forall|k: int| 0 <= k < i ==> v@[k] != x,
        decreases v@.len() - i,
    {
        if v[i] == x {
            return true;
        }
        i = i + 1;
    }
    false
}

/// The pods that torn-down pods may pipe their agents to: those active or
/// queued for tear-down that are not torn down in this pass.
#[verifier::spinoff_prover]
#[verifier::rlimit(40)]
pub fn compute_pipe_targets(st: &ClusterStatus, tear_down: &Vec<usize>) -> (r: Vec<usize>)
    ensures
        forall|k: int|
            0 <= k < r@.len() ==> (st.active@.contains(#[trigger] r@[k]) || st.queued_for_tear_down@.contains(
                r@[k],
            )) && !tear_down@.contains(r@[k]),
        forall|x: usize|
            (st.active@.contains(x) || st.queued_for_tear_down@.contains(x)) && !tear_down@.contains(x)
                ==> #[trigger] r@.contains(x),
{
    let mut out: Vec<usize> = Vec::new();
    let mut i: usize = 0;
    while i < st.active.len()
        invariant
            i <= st.active@.len(),
            forall|k: int|
                0 <= k < out@.len() ==> (st.active@.contains(#[trigger] out@[k])
                    || st.queued_for_tear_down@.contains(out@[k])) && !tear_down@.contains(out@[k]),
            forall|k: int| 0 <= k < i && !tear_down@.contains(st.active@[k]) ==> out@.contains(#[trigger] st.active@[k]),
        decreases st.active@.len() - i,
    {
        let x = st.active[i];
        if !in_list(tear_down, x) {
            let ghost before = out@;
            out.push(x);
            assert(st.active@.contains(x));
            assert forall|k: int| 0 <= k < i + 1 && !tear_down@.contains(st.active@[k]) implies out@.contains(
                #[trigger] st.active@[k],
            ) by {
                if k < i {
                    let w = choose|w: int| 0 <= w < before.len() && before[w] == st.active@[k];
                    assert(out@[w] == st.active@[k]);
                } else {
                    assert(out@[before.len() as int] == st.active@[k]);
                }
            }
        }
        i = i + 1;
    }
    let mut j: usize = 0;
    while j < st.queued_for_tear_down.len()
        invariant
            j <= st.queued_for_tear_down@.len(),
            forall|k: int|
                0 <= k < out@.len() ==> (st.active@.contains(#[trigger] out@[k])
                    || st.queued_for_tear_down@.contains(out@[k])) && !tear_down@.contains(out@[k]),
            forall|k: int| 0 <= k < st.active@.len() && !tear_down@.contains(st.active@[k]) ==> out@.contains(#[trigger] st.active@[k]),
            forall|k: int| 0 <= k < j && !tear_down@.contains(st.queued_for_tear_down@[k]) ==> out@.contains(#[trigger] st.queued_for_tear_down@[k]),
        decreases st.queued_for_tear_down@.len() - j,
    {
        let x = st.queued_for_tear_down[j];
        if !in_list(tear_down, x) {
            let ghost before = out@;
            out.push(x);
            assert(st.queued_for_tear_down@.contains(x));
            assert forall|k: int| 0 <= k < st.active@.len() && !tear_down@.contains(st.active@[k]) implies out@.contains(
                #[trigger] st.active@[k],
            ) by {
                let w = choose|w: int| 0 <= w < before.len() && before[w] == st.active@[k];
                assert(out@[w] == st.active@[k]);
            }
            assert forall|k: int| 0 <= k < j + 1 && !tear_down@.contains(st.queued_for_tear_down@[k]) implies out@.contains(
                #[trigger] st.queued_for_tear_down@[k],
            ) by {
                if k < j {
                    let w = choose|w: int| 0 <= w < before.len() && before[w] == st.queued_for_tear_down@[k];
                    assert(out@[w] == st.queued_for_tear_down@[k]);
                } else {
                    assert(out@[before.len() as int] == st.queued_for_tear_down@[k]);
                }
            }
        }
        j = j + 1;
    }
    proof {
        assert forall|x: usize|
            (st.active@.contains(x) || st.queued_for_tear_down@.contains(x)) && !tear_down@.contains(x)
                implies #[trigger] out@.contains(x) by {
            if st.active@.contains(x) {
                let k = choose|k: int| 0 <= k < st.active@.len() && st.active@[k] == x;
            } else {
                let k = choose|k: int| 0 <= k < st.queued_for_tear_down@.len() && st.queued_for_tear_down@[k] == x;
            }
        }
    }
    out
}

/// Seconds until the next pass: long once every pod is active, short
/// while a rollout is under way.
pub fn requeue_secs(st: &ClusterStatus) -> (r: u64)
    ensures
        r == (if st.warming_up@.len() == 0 && st.tearing_down@.len() == 0
            && st.queued_for_tear_down@.len() == 0 && st.queued_for_abort@.len() == 0 {
            300u64
        } else {
            10u64
        }),
{
    if st.warming_up.len() == 0 && st.tearing_down.len() == 0 && st.queued_for_tear_down.len() == 0
        && st.queued_for_abort.len() == 0 {
        300
    } else {
        10
    }
}

/// What a node reports of one of its agents.
pub struct AgentItem {
    pub name: String,
    pub mode: VirtualAgentModeDto,
    /// When the agent took its current mode, in milliseconds since the epoch.
    pub since: u64,
    pub warming_up: bool,
    pub channels_count: usize,
}

pub open spec fn age(since: u64, now: u64) -> int {
    if now >= since { now - since } else { 0 }
}

/// Whether producers may reach an agent on this pod.
pub open spec fn write_on(a: AgentItem, terminating: bool, now: u64) -> bool {
    match a.mode {
        VirtualAgentModeDto::Master => !(terminating && a.channels_count == 0),
        VirtualAgentModeDto::Replica => !(terminating && a.channels_count == 0) && age(a.since, now) >= 50_000,
        VirtualAgentModeDto::Piped => !(terminating && a.channels_count == 0) && age(a.since, now) < 60_000,
    }
}

/// Whether consumers may reach an agent on this pod.
pub open spec fn read_on(a: AgentItem, terminating: bool, now: u64) -> bool {
    match a.mode {
        VirtualAgentModeDto::Master => !(terminating && a.channels_count == 0),
        VirtualAgentModeDto::Replica => !(terminating && a.channels_count == 0) && age(a.since, now) >= 30_000,
        VirtualAgentModeDto::Piped => !(terminating && a.channels_count == 0) && age(a.since, now) < 40_000,
    }
}

/// A pod takes new channels when it has a master past warm-up and is not
/// being torn down.
pub open spec fn accepts_on(agents: Seq<AgentItem>, terminating: bool) -> bool {
    !terminating && exists|i: int|
        0 <= i < agents.len() && (#[trigger] agents[i]).mode == VirtualAgentModeDto::Master
            && !agents[i].warming_up
}

pub open spec fn on_off(b: bool) -> Seq<char> {
    if b { LABEL_VALUE_ON@ } else { LABEL_VALUE_OFF@ }
}

pub open spec fn agent_label(name: Seq<char>, cap: Seq<char>) -> Seq<char> {
    "megaphone-"@ + name + "-"@ + cap
}

fn on_off_text(b: bool) -> (r: String)
    ensures
        r@ == on_off(b),
{
    if b { String::from_str(LABEL_VALUE_ON) } else { String::from_str(LABEL_VALUE_OFF) }
}

/// `a` followed by `b` and `c`.
pub fn concat3(a: &str, b: &str, c: &str) -> (r: String)
    ensures
        r@ == a@ + b@ + c@,
{
    let mut s = String::from_str(a);
    s.append(b);
    s.append(c);
    s
}

fn agent_label_text(name: &str, cap: &str) -> (r: String)
    ensures
        r@ == agent_label(name@, cap@),
{
    let mut s = String::from_str("megaphone-");
    s.append(name);
    s.append("-");
    s.append(cap);
    s
}

fn age_of(since: u64, now: u64) -> (r: u64)
    ensures
        r == age(since, now),
{
    if now >= since { now - since } else { 0 }
}

/// The labels of a pod from what it reports of its agents: a read and a
/// write label per agent, then the cluster and whether it takes new
/// channels.
#[verifier::spinoff_prover]
#[verifier::rlimit(40)]
pub fn compute_pod_labels(agents: &[AgentItem], terminating: bool, now: u64, cluster: &str) -> (r: Vec<(String, String)>)
    ensures
        r@.len() == 2 * agents@.len() + 2,
        forall|i: int| 0 <= i < agents@.len() ==> (#[trigger] r@[2 * i]).0@ == agent_label(agents@[i].name@, "write"@)
            && r@[2 * i].1@ == on_off(write_on(agents@[i], terminating, now))
            && r@[2 * i + 1].0@ == agent_label(agents@[i].name@, "read"@)
            && r@[2 * i + 1].1@ == on_off(read_on(agents@[i], terminating, now)),
        r@[2 * agents@.len() as int].0@ == LABEL_CLUSTER_NAME@,
        r@[2 * agents@.len() as int].1@ == cluster@,
        r@[2 * agents@.len() as int + 1].0@ == LABEL_ACCEPTS_NEW_CHANNELS@,
        r@[2 * agents@.len() as int + 1].1@ == on_off(accepts_on(agents@, terminating)),
{
    proof {
        reveal_strlit("write");
        reveal_strlit("read");
    }
    let mut out: Vec<(String, String)> = Vec::new();
    let mut ready_master = false;
    let mut i: usize = 0;
    while i < agents.len()
        invariant
            i <= agents@.len(),
            out@.len() == 2 * i,
            ready_master == exists|j: int|
                0 <= j < i && (#[trigger] agents@[j]).mode == VirtualAgentModeDto::Master
                    && !agents@[j].warming_up,
            forall|j: int| 0 <= j < i ==> (#[trigger] out@[2 * j]).0@ == agent_label(agents@[j].name@, "write"@)
                && out@[2 * j].1@ == on_off(write_on(agents@[j], terminating, now))
                && out@[2 * j + 1].0@ == agent_label(agents@[j].name@, "read"@)
                && out@[2 * j + 1].1@ == on_off(read_on(agents@[j], terminating, now)),
        decreases agents@.len() - i,
    {
        let a = &agents[i];
        let age = age_of(a.since, now);
        let idle = terminating && a.channels_count == 0;
        let (write, read) = match a.mode {
            VirtualAgentModeDto::Master => (!idle, !idle),
            VirtualAgentModeDto::Replica => (!idle && age >= 50_000, !idle && age >= 30_000),
            VirtualAgentModeDto::Piped => (!idle && age < 60_000, !idle && age < 40_000),
        };
        if a.mode == VirtualAgentModeDto::Master && !a.warming_up {
            ready_master = true;
        }
        assert(write == write_on(agents@[i as int], terminating, now));
        assert(read == read_on(agents@[i as int], terminating, now));
        let ghost before = out@;
        out.push((agent_label_text(a.name.as_str(), "write"), on_off_text(write)));
        out.push((agent_label_text(a.name.as_str(), "read"), on_off_text(read)));
        proof {
            assert(out@[2 * i as int].0@ == agent_label(agents@[i as int].name@, "write"@));
            assert(out@[2 * i as int].1@ == on_off(write_on(agents@[i as int], terminating, now)));
            assert(out@[2 * i as int + 1].0@ == agent_label(agents@[i as int].name@, "read"@));
            assert(out@[2 * i as int + 1].1@ == on_off(read_on(agents@[i as int], terminating, now)));
            assert forall|j: int| 0 <= j < i + 1 implies (#[trigger] out@[2 * j]).0@ == agent_label(agents@[j].name@, "write"@)
                && out@[2 * j].1@ == on_off(write_on(agents@[j], terminating, now))
                && out@[2 * j + 1].0@ == agent_label(agents@[j].name@, "read"@)
                && out@[2 * j + 1].1@ == on_off(read_on(agents@[j], terminating, now)) by {
                if j < i {
                    assert(out@[2 * j] == before[2 * j]);
                    assert(out@[2 * j + 1] == before[2 * j + 1]);
                }
            }
        }
        i = i + 1;
    }
    out.push((String::from_str(LABEL_CLUSTER_NAME), String::from_str(cluster)));
    out.push((String::from_str(LABEL_ACCEPTS_NEW_CHANNELS), on_off_text(ready_master && !terminating)));
    out
}

/// The bytes of the key that scrambles agent identifiers.
pub open spec fn scrambling_key() -> Seq<u8> {
    seq![77u8, 69u8, 71u8, 65u8, 80u8, 72u8, 79u8, 78u8, 69u8]
}

/// The big-endian bytes of a node and an agent slot, each XORed with the
/// repeated key.
pub open spec fn scrambled(node_idx: u32, vagent_idx: u32) -> Seq<u8> {
    let plain = crate::feature::be_bytes(node_idx) + crate::feature::be_bytes(vagent_idx);
    Seq::new(8, |i: int| plain[i] ^ scrambling_key()[i % 9])
}

/// The identifier of agent slot `vagent_idx` on node `node_idx`: the hex of
/// their scrambled bytes. Stable across passes; not a secret.
pub fn build_vagent_id(node_idx: u32, vagent_idx: u32) -> (r: String)
    ensures
        r@ == hex_lower(scrambled(node_idx, vagent_idx)),
{
    let key: Vec<u8> = vec![77u8, 69u8, 71u8, 65u8, 80u8, 72u8, 79u8, 78u8, 69u8];
    let plain: Vec<u8> = vec![
        ((node_idx >> 24u32) & 0xffu32) as u8,
        ((node_idx >> 16u32) & 0xffu32) as u8,
        ((node_idx >> 8u32) & 0xffu32) as u8,
        (node_idx & 0xffu32) as u8,
        ((vagent_idx >> 24u32) & 0xffu32) as u8,
        ((vagent_idx >> 16u32) & 0xffu32) as u8,
        ((vagent_idx >> 8u32) & 0xffu32) as u8,
        (vagent_idx & 0xffu32) as u8,
    ];
    assert(plain@ =~= crate::feature::be_bytes(node_idx) + crate::feature::be_bytes(vagent_idx));
    assert(key@ =~= scrambling_key());
    let ghost p0 = plain@;
    let mut out: Vec<u8> = Vec::new();
    let mut i: usize = 0;
    while i < 8
        invariant
            i <= 8,
            plain@ == p0,
            p0.len() == 8,
            key@ == scrambling_key(),
            out@.len() == i,
            forall|j: int| 0 <= j < i ==> out@[j] == p0[j] ^ scrambling_key()[j % 9],
        decreases 8 - i,
    {
        out.push(plain[i] ^ key[i % 9]);
        i = i + 1;
    }
    assert(out@ =~= scrambled(node_idx, vagent_idx));
    hex_encode(out.as_slice())
}

/// The decimal digits of a number.
pub open spec fn decimal(n: nat) -> Seq<char>
    decreases n,
{
    if n < 10 {
        seq![(('0' as u8) + (n as u8)) as char]
    } else {
        decimal(n / 10) + seq![(('0' as u8) + ((n % 10) as u8)) as char]
    }
}

fn digit_text(d: usize) -> (r: &'static str)
    requires
        d < 10,
    ensures
        r@ == seq![(('0' as u8) + (d as u8)) as char],
{
    proof {
        reveal_strlit("0"); reveal_strlit("1"); reveal_strlit("2"); reveal_strlit("3");
        reveal_strlit("4"); reveal_strlit("5"); reveal_strlit("6"); reveal_strlit("7");
        reveal_strlit("8"); reveal_strlit("9");
    }
    match d {
        0 => "0",
        1 => "1",
        2 => "2",
        3 => "3",
        4 => "4",
        5 => "5",
        6 => "6",
        7 => "7",
        8 => "8",
        _ => "9",
    }
}

/// The decimal text of a number.
pub fn decimal_text(n: usize) -> (r: String)
    ensures
        r@ == decimal(n as nat),
    decreases n,
{
    if n < 10 {
        String::from_str(digit_text(n))
    } else {
        let mut s = decimal_text(n / 10);
        s.append(digit_text(n % 10));
        s
    }
}

/// What the controller creates for one node.
pub struct PodPlan {
    pub name: String,
    pub image: String,
    pub virtual_agent_ids: Vec<String>,
    /// Environment of the broker container: one master per agent.
    pub env: Vec<(String, String)>,
    pub labels: Vec<(String, String)>,
    /// Resource limits of the broker container, by resource name.
    pub limits: Option<Vec<(String, String)>>,
    /// Resource requests of the broker container, by resource name.
    pub requests: Option<Vec<(String, String)>>,
}

/// The resource map of a constraint: the cpu and memory it names, in that
/// order.
pub open spec fn resource_pairs(c: Option<ResourceConstraints>) -> Option<Seq<(Seq<char>, Seq<char>)>> {
    match c {
        None => None,
        Some(c) => Some(
            (match c.cpu {
                Some(v) => seq![("cpu"@, v@)],
                None => Seq::empty(),
            }) + (match c.memory {
                Some(v) => seq![("memory"@, v@)],
                None => Seq::empty(),
            }),
        ),
    }
}

pub open spec fn pairs_option_view(m: Option<Vec<(String, String)>>) -> Option<Seq<(Seq<char>, Seq<char>)>> {
    match m {
        None => None,
        Some(v) => Some(pairs_view(v@)),
    }
}

/// The resource map that a pod gets from a constraint of the spec.
pub fn resource_map(c: &Option<ResourceConstraints>) -> (r: Option<Vec<(String, String)>>)
    ensures
        pairs_option_view(r) == resource_pairs(*c),
{
    proof {
        reveal_strlit("cpu");
        reveal_strlit("memory");
    }
    match c {
        None => None,
        Some(c) => {
            let mut v: Vec<(String, String)> = Vec::new();
            if let Some(cpu) = &c.cpu {
                v.push((String::from_str("cpu"), cpu.clone()));
            }
            if let Some(mem) = &c.memory {
                v.push((String::from_str("memory"), mem.clone()));
            }
            assert(pairs_view(v@) =~= resource_pairs(Some(*c))->Some_0);
            Some(v)
        },
    }
}

pub open spec fn spec_limits(spec: MegaphoneSpec) -> Option<ResourceConstraints> {
    match spec.resources {
        Some(r) => r.limits,
        None => None,
    }
}

pub open spec fn spec_requests(spec: MegaphoneSpec) -> Option<ResourceConstraints> {
    match spec.resources {
        Some(r) => r.requests,
        None => None,
    }
}

pub open spec fn pod_name(cluster: Seq<char>, idx: nat) -> Seq<char> {
    "mgp-"@ + cluster + "-"@ + decimal(idx)
}

/// The plan of node `idx`: its name, the spec's image, one master per agent
/// slot, and labels that route nothing new to it until it is ready.
#[verifier::spinoff_prover]
#[verifier::rlimit(40)]
pub fn create_pod(spec: &MegaphoneSpec, cluster: &str, idx: u32) -> (r: PodPlan)
    ensures
        r.name@ == pod_name(cluster@, idx as nat),
        r.image@ == spec.image@,
        r.virtual_agent_ids@.len() == spec.virtual_agents_per_node,
        r.env@.len() == spec.virtual_agents_per_node,
        forall|k: int|
            0 <= k < r.virtual_agent_ids@.len() ==> (#[trigger] r.virtual_agent_ids@[k])@ == hex_lower(
                scrambled(idx, k as u32),
            ) && r.env@[k].0@ == "megaphone_agent.virtual."@ + r.virtual_agent_ids@[k]@
                && r.env@[k].1@ == "MASTER"@,
        r.labels@.len() == 2 * spec.virtual_agents_per_node + 3,
        forall|k: int|
            0 <= k < spec.virtual_agents_per_node ==> (#[trigger] r.labels@[2 * k]).0@ == agent_label(
                r.virtual_agent_ids@[k]@,
                "write"@,
            ) && r.labels@[2 * k].1@ == LABEL_VALUE_ON@ && r.labels@[2 * k + 1].0@ == agent_label(
                r.virtual_agent_ids@[k]@,
                "read"@,
            ) && r.labels@[2 * k + 1].1@ == LABEL_VALUE_ON@,
        r.labels@[2 * spec.virtual_agents_per_node as int].0@ == LABEL_CLUSTER_NAME@,
        r.labels@[2 * spec.virtual_agents_per_node as int].1@ == cluster@,
        r.labels@[2 * spec.virtual_agents_per_node as int + 1].0@ == LABEL_NODE_NAME@,
        r.labels@[2 * spec.virtual_agents_per_node as int + 1].1@ == r.name@,
        r.labels@[2 * spec.virtual_agents_per_node as int + 2].0@ == LABEL_ACCEPTS_NEW_CHANNELS@,
        r.labels@[2 * spec.virtual_agents_per_node as int + 2].1@ == LABEL_VALUE_OFF@,
        pairs_option_view(r.limits) == resource_pairs(spec_limits(*spec)),
        pairs_option_view(r.requests) == resource_pairs(spec_requests(*spec)),
{
    proof {
        reveal_strlit("write");
        reveal_strlit("read");
    }
    let n = spec.virtual_agents_per_node;
    let mut ids: Vec<String> = Vec::new();
    let mut env: Vec<(String, String)> = Vec::new();
    let mut labels: Vec<(String, String)> = Vec::new();
    let mut k: usize = 0;
    while k < n
        invariant
            k <= n,
            n == spec.virtual_agents_per_node,
            ids@.len() == k,
            env@.len() == k,
            labels@.len() == 2 * k,
            forall|j: int|
                0 <= j < k ==> (#[trigger] ids@[j])@ == hex_lower(scrambled(idx, j as u32))
                    && env@[j].0@ == "megaphone_agent.virtual."@ + ids@[j]@ && env@[j].1@ == "MASTER"@,
            forall|j: int|
                0 <= j < k ==> (#[trigger] labels@[2 * j]).0@ == agent_label(ids@[j]@, "write"@)
                    && labels@[2 * j].1@ == LABEL_VALUE_ON@ && labels@[2 * j + 1].0@ == agent_label(
                    ids@[j]@,
                    "read"@,
                ) && labels@[2 * j + 1].1@ == LABEL_VALUE_ON@,
        decreases n - k,
    {
        let id = build_vagent_id(idx, k as u32);
        let ghost ids0 = ids@;
        let ghost env0 = env@;
        let ghost labels0 = labels@;
        env.push((concat3("megaphone_agent.virtual.", id.as_str(), ""), String::from_str("MASTER")));
        labels.push((agent_label_text(id.as_str(), "write"), String::from_str(LABEL_VALUE_ON)));
        labels.push((agent_label_text(id.as_str(), "read"), String::from_str(LABEL_VALUE_ON)));
        ids.push(id);
        proof {
            reveal_strlit("");
            assert forall|j: int| 0 <= j < k + 1 implies (#[trigger] ids@[j])@ == hex_lower(scrambled(idx, j as u32))
                && env@[j].0@ == "megaphone_agent.virtual."@ + ids@[j]@ && env@[j].1@ == "MASTER"@ by {
                if j < k {
                    assert(ids@[j] == ids0[j]);
                    assert(env@[j] == env0[j]);
                } else {
                    assert(env@[j].0@ =~= "megaphone_agent.virtual."@ + ids@[j]@);
                }
            }
            assert forall|j: int| 0 <= j < k + 1 implies (#[trigger] labels@[2 * j]).0@ == agent_label(ids@[j]@, "write"@)
                && labels@[2 * j].1@ == LABEL_VALUE_ON@ && labels@[2 * j + 1].0@ == agent_label(
                ids@[j]@,
                "read"@,
            ) && labels@[2 * j + 1].1@ == LABEL_VALUE_ON@ by {
                if j < k {
                    assert(ids@[j] == ids0[j]);
                    assert(labels@[2 * j] == labels0[2 * j]);
                    assert(labels@[2 * j + 1] == labels0[2 * j + 1]);
                }
            }
        }
        k = k + 1;
    }
    let mut name = concat3("mgp-", cluster, "-");
    let num = decimal_text(idx as usize);
    name.append(num.as_str());
    labels.push((String::from_str(LABEL_CLUSTER_NAME), String::from_str(cluster)));
    labels.push((String::from_str(LABEL_NODE_NAME), name.clone()));
    labels.push((String::from_str(LABEL_ACCEPTS_NEW_CHANNELS), String::from_str(LABEL_VALUE_OFF)));
    let (limits, requests) = match &spec.resources {
        Some(res) => (resource_map(&res.limits), resource_map(&res.requests)),
        None => (None, None),
    };
    PodPlan { name, image: image_of(spec), virtual_agent_ids: ids, env, labels, limits, requests }
}

fn image_of(spec: &MegaphoneSpec) -> (r: String)
    ensures
        r@ == spec.image@,
{
    spec.image.clone()
}

/// A service that the cluster must have.
pub struct ServicePlan {
    pub name: String,
    pub port: u16,
    pub selector: Vec<(String, String)>,
}

/// The names of the services a cluster needs: a read and a write service
/// per agent, one per pod, and one for the whole cluster.
pub open spec fn required_names(cluster: Seq<char>, agents: Seq<String>, pods: Seq<String>) -> Seq<Seq<char>> {
    Seq::new(2 * agents.len(), |i: int| "svc-"@ + cluster + "-"@ + agents[i / 2]@ + (if i % 2 == 0 { "-read"@ } else { "-write"@ }))
        + Seq::new(pods.len(), |i: int| pods[i]@)
        + seq!["svc-"@ + cluster]
}

/// The label pairs of a selector.
pub open spec fn pairs_view(sel: Seq<(String, String)>) -> Seq<(Seq<char>, Seq<char>)> {
    sel.map_values(|p: (String, String)| (p.0@, p.1@))
}

/// Service `k` of a cluster: its name, its port and what it selects. Agent
/// services select the agent's read or write label, pod services the node
/// label, and the cluster service the pods that take new channels.
pub open spec fn plan_ok(p: ServicePlan, cluster: Seq<char>, agents: Seq<String>, pods: Seq<String>, k: int) -> bool {
    let na = 2 * agents.len();
    &&& p.name@ == required_names(cluster, agents, pods)[k]
    &&& k < na ==> p.port == 3000 && pairs_view(p.selector@) == seq![
        (LABEL_CLUSTER_NAME@, cluster),
        (agent_label(agents[k / 2]@, if k % 2 == 0 { "read"@ } else { "write"@ }), LABEL_VALUE_ON@),
    ]
    &&& na <= k < na + pods.len() ==> p.port == 3001 && pairs_view(p.selector@) == seq![
        (LABEL_CLUSTER_NAME@, cluster),
        (LABEL_NODE_NAME@, pods[k - na]@),
    ]
    &&& k == na + pods.len() ==> p.port == 3000 && pairs_view(p.selector@) == seq![
        (LABEL_CLUSTER_NAME@, cluster),
        (LABEL_ACCEPTS_NEW_CHANNELS@, LABEL_VALUE_ON@),
    ]
}

/// The services a cluster needs, as `plan_ok` says.
#[verifier::spinoff_prover]
#[verifier::rlimit(40)]
pub fn required_services(cluster: &str, agent_ids: &[String], pod_names: &[String]) -> (r: Vec<ServicePlan>)
    requires
        2 * agent_ids@.len() + pod_names@.len() + 1 <= usize::MAX,
    ensures
        r@.len() == required_names(cluster@, agent_ids@, pod_names@).len(),
        forall|k: int| 0 <= k < r@.len() ==> plan_ok(#[trigger] r@[k], cluster@, agent_ids@, pod_names@, k),
{
    let ghost want = required_names(cluster@, agent_ids@, pod_names@);
    let mut out: Vec<ServicePlan> = Vec::new();
    let mut i: usize = 0;
    while i < agent_ids.len()
        invariant
            i <= agent_ids@.len(),
            want == required_names(cluster@, agent_ids@, pod_names@),
            out@.len() == 2 * i,
            forall|k: int| 0 <= k < out@.len() ==> plan_ok(#[trigger] out@[k], cluster@, agent_ids@, pod_names@, k),
        decreases agent_ids@.len() - i,
    {
        let ghost before = out@;
        let mut read_name = concat3("svc-", cluster, "-");
        read_name.append(agent_ids[i].as_str());
        read_name.append("-read");
        let mut write_name = concat3("svc-", cluster, "-");
        write_name.append(agent_ids[i].as_str());
        write_name.append("-write");
        let mut read_sel: Vec<(String, String)> = Vec::new();
        read_sel.push((String::from_str(LABEL_CLUSTER_NAME), String::from_str(cluster)));
        read_sel.push((agent_label_text(agent_ids[i].as_str(), "read"), String::from_str(LABEL_VALUE_ON)));
        let mut write_sel: Vec<(String, String)> = Vec::new();
        write_sel.push((String::from_str(LABEL_CLUSTER_NAME), String::from_str(cluster)));
        write_sel.push((agent_label_text(agent_ids[i].as_str(), "write"), String::from_str(LABEL_VALUE_ON)));
        out.push(ServicePlan { name: read_name, port: 3000, selector: read_sel });
        out.push(ServicePlan { name: write_name, port: 3000, selector: write_sel });
        proof {
            reveal_strlit("read");
            reveal_strlit("write");
            assert forall|k: int| 0 <= k < out@.len() implies plan_ok(#[trigger] out@[k], cluster@, agent_ids@, pod_names@, k) by {
                if k < 2 * i {
                    assert(out@[k] == before[k]);
                } else if k == 2 * i {
                    assert(k / 2 == i && k % 2 == 0);
                    assert(out@[k].name@ =~= want[k]);
                    assert(pairs_view(out@[k].selector@) =~= seq![
                        (LABEL_CLUSTER_NAME@, cluster@),
                        (agent_label(agent_ids@[i as int]@, "read"@), LABEL_VALUE_ON@),
                    ]);
                } else {
                    assert(k / 2 == i && k % 2 == 1);
                    assert(out@[k].name@ =~= want[k]);
                    assert(pairs_view(out@[k].selector@) =~= seq![
                        (LABEL_CLUSTER_NAME@, cluster@),
                        (agent_label(agent_ids@[i as int]@, "write"@), LABEL_VALUE_ON@),
                    ]);
                }
            }
        }
        i = i + 1;
    }
    let mut j: usize = 0;
    while j < pod_names.len()
        invariant
            j <= pod_names@.len(),
            want == required_names(cluster@, agent_ids@, pod_names@),
            out@.len() == 2 * agent_ids@.len() + j,
            forall|k: int| 0 <= k < out@.len() ==> plan_ok(#[trigger] out@[k], cluster@, agent_ids@, pod_names@, k),
        decreases pod_names@.len() - j,
    {
        let ghost before = out@;
        let mut sel: Vec<(String, String)> = Vec::new();
        sel.push((String::from_str(LABEL_CLUSTER_NAME), String::from_str(cluster)));
        sel.push((String::from_str(LABEL_NODE_NAME), pod_names[j].clone()));
        out.push(ServicePlan { name: pod_names[j].clone(), port: 3001, selector: sel });
        proof {
            assert forall|k: int| 0 <= k < out@.len() implies plan_ok(#[trigger] out@[k], cluster@, agent_ids@, pod_names@, k) by {
                if k < before.len() {
                    assert(out@[k] == before[k]);
                } else {
                    assert(out@[k].name@ =~= want[k]);
                    assert(pairs_view(out@[k].selector@) =~= seq![
                        (LABEL_CLUSTER_NAME@, cluster@),
                        (LABEL_NODE_NAME@, pod_names@[j as int]@),
                    ]);
                }
            }
        }
        j = j + 1;
    }
    let ghost before = out@;
    let mut sel: Vec<(String, String)> = Vec::new();
    sel.push((String::from_str(LABEL_CLUSTER_NAME), String::from_str(cluster)));
    sel.push((String::from_str(LABEL_ACCEPTS_NEW_CHANNELS), String::from_str(LABEL_VALUE_ON)));
    out.push(ServicePlan { name: concat3("svc-", cluster, ""), port: 3000, selector: sel });
    proof {
        reveal_strlit("");
        assert forall|k: int| 0 <= k < out@.len() implies plan_ok(#[trigger] out@[k], cluster@, agent_ids@, pod_names@, k) by {
            if k < before.len() {
                assert(out@[k] == before[k]);
            } else {
                assert(out@[k].name@ =~= want[k]);
                assert(pairs_view(out@[k].selector@) =~= seq![
                    (LABEL_CLUSTER_NAME@, cluster@),
                    (LABEL_ACCEPTS_NEW_CHANNELS@, LABEL_VALUE_ON@),
                ]);
            }
        }
    }
    out
}

/// Whether a text is among the names of some services.
pub fn names_contain(services: &[ServicePlan], name: &str) -> (r: bool)
    ensures
        r == exists|k: int| 0 <= k < services@.len() && #[trigger] services@[k].name@ == name@,
{
    let mut i: usize = 0;
    while i < services.len()
        invariant
            i <= services@.len(),
            forall|k: int| 0 <= k < i ==> #[trigger] services@[k].name@ != name@,
        decreases services@.len() - i,
    {
        if text_equal(services[i].name.as_str(), name) {
            return true;
        }
        i = i + 1;
    }
    false
}

/// Whether a text is among some texts.
pub open spec fn text_in(ss: Seq<String>, n: Seq<char>) -> bool {
    exists|k: int| 0 <= k < ss.len() && #[trigger] ss[k]@ == n
}

/// Whether a text names one of some services.
pub open spec fn named_in(ps: Seq<ServicePlan>, n: Seq<char>) -> bool {
    exists|k: int| 0 <= k < ps.len() && #[trigger] ps[k].name@ == n
}

/// The existing services that are not required: those to delete.
#[verifier::spinoff_prover]
#[verifier::rlimit(40)]
pub fn services_to_delete(existing: &[String], required: &[ServicePlan]) -> (r: Vec<String>)
    ensures
        forall|k: int| 0 <= k < r@.len() ==> text_in(existing@, #[trigger] r@[k]@) && !named_in(required@, r@[k]@),
        forall|n: Seq<char>| text_in(existing@, n) && !named_in(required@, n) ==> #[trigger] text_in(r@, n),
{
    let mut out: Vec<String> = Vec::new();
    let mut i: usize = 0;
    while i < existing.len()
        invariant
            i <= existing@.len(),
            forall|k: int| 0 <= k < out@.len() ==> text_in(existing@, #[trigger] out@[k]@) && !named_in(required@, out@[k]@),
            forall|k: int| 0 <= k < i && !named_in(required@, #[trigger] existing@[k]@) ==> text_in(out@, existing@[k]@),
        decreases existing@.len() - i,
    {
        let present = names_contain(required, existing[i].as_str());
        let ghost before = out@;
        if !present {
            out.push(existing[i].clone());
            proof {
                assert(out@[before.len() as int]@ == existing@[i as int]@);
                assert(text_in(existing@, existing@[i as int]@));
                assert forall|k: int| 0 <= k < out@.len() implies text_in(existing@, #[trigger] out@[k]@) && !named_in(required@, out@[k]@) by {
                    if k < before.len() {
                        assert(out@[k] == before[k]);
                    }
                }
                assert forall|k: int| 0 <= k < i + 1 && !named_in(required@, #[trigger] existing@[k]@) implies text_in(out@, existing@[k]@) by {
                    if k < i {
                        let w = choose|w: int| 0 <= w < before.len() && #[trigger] before[w]@ == existing@[k]@;
                        assert(out@[w] == before[w]);
                    }
                }
            }
        }
        i = i + 1;
    }
    proof {
        assert forall|n: Seq<char>| text_in(existing@, n) && !named_in(required@, n) implies #[trigger] text_in(out@, n) by {
            let k = choose|k: int| 0 <= k < existing@.len() && #[trigger] existing@[k]@ == n;
        }
    }
    out
}

#[derive(Clone, Copy, Debug, PartialEq, Eq, Structural)]
pub enum MegaphoneClusterStatus {
    Idle,
    Upgrade,
}

/// What the controller records of a cluster.
pub struct MegaphoneStatus {
    pub pods: Vec<String>,
    pub services: Vec<String>,
    pub cluster_status: MegaphoneClusterStatus,
}

/// The decisions of one reconcile pass over the pods of a cluster.
pub struct ReconcilePlan {
    /// The pods by status, less those deleted in this pass.
    pub status: ClusterStatus,
    /// Pods to delete now: torn-down pods that nothing reaches any more, and
    /// pods aborted while warming up.
    pub delete_now: Vec<usize>,
    /// How many new pods to create.
    pub create_count: usize,
    /// Pods to tear down, in order.
    pub tear_down: Vec<usize>,
    /// Pods that the torn-down ones may pipe their agents to.
    pub pipe_targets: Vec<usize>,
    pub requeue_secs: u64,
}

/// The total number of pods in a grouping.
pub open spec fn total(st: ClusterStatus) -> int {
    (st.active@.len() + st.warming_up@.len() + st.tearing_down@.len() + st.queued_for_tear_down@.len()
        + st.queued_for_abort@.len()) as int
}

/// The torn-down pods, among `td`, that nothing reaches any more.
pub open spec fn finished_of(pods: Seq<PodView>, td: Seq<usize>) -> Seq<usize>
    decreases td.len(),
{
    if td.len() == 0 {
        Seq::empty()
    } else if all_connections_off(pods[td.last() as int].labels@) {
        finished_of(pods, td.drop_last()).push(td.last())
    } else {
        finished_of(pods, td.drop_last())
    }
}

/// The torn-down pods, among `td`, that something still reaches.
pub open spec fn unfinished_of(pods: Seq<PodView>, td: Seq<usize>) -> Seq<usize>
    decreases td.len(),
{
    if td.len() == 0 {
        Seq::empty()
    } else if all_connections_off(pods[td.last() as int].labels@) {
        unfinished_of(pods, td.drop_last())
    } else {
        unfinished_of(pods, td.drop_last()).push(td.last())
    }
}

/// What a pass decides from a grouping of the pods.
#[verifier::opaque]
pub open spec fn planned(st: ClusterStatus, pods: Seq<PodView>, replicas: usize, r: ReconcilePlan) -> bool {
    &&& r.delete_now@ == finished_of(pods, st.tearing_down@) + st.queued_for_abort@
    &&& r.status.active@ == st.active@
    &&& r.status.warming_up@ == st.warming_up@
    &&& r.status.tearing_down@ == unfinished_of(pods, st.tearing_down@)
    &&& r.status.queued_for_tear_down@ == st.queued_for_tear_down@
    &&& r.status.queued_for_abort@.len() == 0
    &&& r.create_count == (if total(r.status) < replicas { replicas - total(r.status) } else { 0 })
    &&& r.tear_down@ == tear_down_spec(r.status, replicas)
    &&& forall|x: usize|
        #[trigger] r.pipe_targets@.contains(x) <==> ((r.status.active@.contains(x)
            || r.status.queued_for_tear_down@.contains(x)) && !r.tear_down@.contains(x))
    &&& r.requeue_secs == (if r.status.warming_up@.len() == 0 && r.status.tearing_down@.len() == 0
        && r.status.queued_for_tear_down@.len() == 0 {
        300u64
    } else {
        10u64
    })
}

/// Plans a pass from a grouping of the pods: deletes the torn-down pods
/// that nothing reaches and the aborted ones, creates the missing pods, and
/// picks the pods to tear down and where their agents may go.
#[verifier::spinoff_prover]
#[verifier::rlimit(40)]
pub fn plan_from_status(st: ClusterStatus, pods: &[PodView], replicas: usize) -> (r: ReconcilePlan)
    requires
        forall|k: int| 0 <= k < st.tearing_down@.len() ==> #[trigger] st.tearing_down@[k] < pods@.len(),
        st.active@.len() + st.warming_up@.len() + st.tearing_down@.len() + st.queued_for_tear_down@.len()
            + st.queued_for_abort@.len() <= usize::MAX,
    ensures
        planned(st, pods@, replicas, r),
{
    let ghost st0 = st;
    let ClusterStatus { active, warming_up, tearing_down, queued_for_tear_down, queued_for_abort } = st;
    let mut delete_now: Vec<usize> = Vec::new();
    let mut still_tearing: Vec<usize> = Vec::new();
    let mut i: usize = 0;
    while i < tearing_down.len()
        invariant
            i <= tearing_down@.len(),
            tearing_down@ == st0.tearing_down@,
            forall|k: int| 0 <= k < tearing_down@.len() ==> #[trigger] tearing_down@[k] < pods@.len(),
            delete_now@ == finished_of(pods@, tearing_down@.subrange(0, i as int)),
            still_tearing@ == unfinished_of(pods@, tearing_down@.subrange(0, i as int)),
        decreases tearing_down@.len() - i,
    {
        assert(tearing_down@.subrange(0, i + 1).drop_last() =~= tearing_down@.subrange(0, i as int));
        assert(tearing_down@.subrange(0, i + 1).last() == tearing_down@[i as int]);
        let x = tearing_down[i];
        if connections_all_off(&pods[x].labels) {
            delete_now.push(x);
        } else {
            still_tearing.push(x);
        }
        i = i + 1;
    }
    assert(tearing_down@.subrange(0, tearing_down@.len() as int) =~= tearing_down@);
    let ghost finished = delete_now@;
    let mut j: usize = 0;
    while j < queued_for_abort.len()
        invariant
            j <= queued_for_abort@.len(),
            delete_now@ == finished + queued_for_abort@.subrange(0, j as int),
        decreases queued_for_abort@.len() - j,
    {
        delete_now.push(queued_for_abort[j]);
        assert(delete_now@ =~= finished + queued_for_abort@.subrange(0, j + 1));
        j = j + 1;
    }
    assert(queued_for_abort@.subrange(0, queued_for_abort@.len() as int) =~= queued_for_abort@);
    let status = ClusterStatus {
        active,
        warming_up,
        tearing_down: still_tearing,
        queued_for_tear_down,
        queued_for_abort: Vec::new(),
    };
    proof {
        lemma_unfinished_len(pods@, st0.tearing_down@);
    }
    let count = status.active.len() as u128 + status.warming_up.len() as u128
        + status.tearing_down.len() as u128 + status.queued_for_tear_down.len() as u128;
    let create_count: usize = if count < replicas as u128 {
        (replicas as u128 - count) as usize
    } else {
        0
    };
    let tear_down = tear_down_list(&status, replicas);
    let pipe_targets = compute_pipe_targets(&status, &tear_down);
    let requeue = requeue_secs(&status);
    let r = ReconcilePlan { status, delete_now, create_count, tear_down, pipe_targets, requeue_secs: requeue };
    proof {
        reveal(planned);
    }
    r
}

proof fn lemma_unfinished_len(pods: Seq<PodView>, td: Seq<usize>)
    ensures
        unfinished_of(pods, td).len() <= td.len(),
    decreases td.len(),
{
    if td.len() > 0 {
        lemma_unfinished_len(pods, td.drop_last());
    }
}

/// Plans one reconcile pass: groups and demotes the pods as
/// `determine_cluster_status` does, then decides as `plan_from_status` does.
#[verifier::spinoff_prover]
pub fn plan_reconcile(spec: &MegaphoneSpec, pods: &[PodView]) -> (r: ReconcilePlan)
    ensures
        exists|st: ClusterStatus| #[trigger] grouped(*spec, pods@, st) && planned(st, pods@, spec.replicas, r),
{
    let _listed = pods.len();
    let st = determine_cluster_status(spec, pods);
    let ghost g = st;
    proof {
        lemma_grouped_bounds(*spec, pods@, g);
    }
    let r = plan_from_status(st, pods, spec.replicas);
    assert(grouped(*spec, pods@, g) && planned(g, pods@, spec.replicas, r));
    r
}

/// An agent that must leave a pod being torn down: a master or a replica
/// that still has channels.
pub open spec fn must_pipe(a: AgentItem) -> bool {
    a.mode != VirtualAgentModeDto::Piped && a.channels_count > 0
}

/// The names, in order, of the agents that must leave a pod being torn down.
pub open spec fn pipe_names(agents: Seq<AgentItem>) -> Seq<Seq<char>>
    decreases agents.len(),
{
    if agents.len() == 0 {
        Seq::empty()
    } else if must_pipe(agents.last()) {
        pipe_names(agents.drop_last()).push(agents.last().name@)
    } else {
        pipe_names(agents.drop_last())
    }
}

/// The agents of a pod being torn down that must be piped elsewhere, in
/// order, each as often as it is reported. Piped agents are already moving.
#[verifier::spinoff_prover]
pub fn agents_to_pipe(agents: &[AgentItem]) -> (r: Vec<String>)
    ensures
        r@.map_values(|s: String| s@) == pipe_names(agents@),
{
    let mut out: Vec<String> = Vec::new();
    let mut i: usize = 0;
    while i < agents.len()
        invariant
            i <= agents@.len(),
            out@.map_values(|s: String| s@) == pipe_names(agents@.subrange(0, i as int)),
        decreases agents@.len() - i,
    {
        assert(agents@.subrange(0, i + 1).drop_last() =~= agents@.subrange(0, i as int));
        assert(agents@.subrange(0, i + 1).last() == agents@[i as int]);
        let ghost before = out@;
        if agents[i].mode != VirtualAgentModeDto::Piped && agents[i].channels_count > 0 {
            out.push(agents[i].name.clone());
            assert(out@.map_values(|s: String| s@) =~= before.map_values(|s: String| s@).push(agents@[i as int].name@));
        }
        i = i + 1;
    }
    assert(agents@.subrange(0, agents@.len() as int) =~= agents@);
    out
}

/// The URL of the sync service of a pod.
pub fn pipe_target_url(pod: &str, namespace: &str) -> (r: String)
    ensures
        r@ == "http://"@ + pod@ + "."@ + namespace@ + ".svc.cluster.local:3001"@,
{
    let mut s = concat3("http://", pod, ".");
    s.append(namespace);
    s.append(".svc.cluster.local:3001");
    s
}

} // verus!
