//! Decode container and service identity from a cgroup path.
//!
//! A cgroup path already encodes who the workload is, so this needs no access
//! to a container runtime, a kubelet, or the network - which matters, because
//! the log being read is often from a machine that no longer exists.

use vstd::prelude::*;
use crate::text::{
    after_last, chars_of, contains, contains_in, ends_with_in, has_at, last_index_of,
    lemma_last_index_of, lemma_next_index_of, lit_at, next_index_of, push_chars, starts_with,
    starts_with_in, string_of, strip_suffix, sub_vec, trim, trim_bounds, ends_with,
    lemma_trim_end_bounds, lemma_trim_start_bounds, trim_end_index, trim_start_index,
};

verus! {

/// What kind of thing the cgroup belongs to.
#[derive(Debug, Clone, Copy, PartialEq, Eq, Structural)]
pub enum Runtime {
    Kubernetes,
    Docker,
    Containerd,
    CriO,
    Podman,
    /// A plain systemd unit, e.g. `nginx.service`.
    SystemdUnit,
    /// A logged-in user's session scope.
    UserSession,
}

/// The label a runtime is shown under.
pub open spec fn runtime_label(r: Runtime) -> Seq<char> {
    match r {
        Runtime::Kubernetes => "kubernetes"@,
        Runtime::Docker => "docker"@,
        Runtime::Containerd => "containerd"@,
        Runtime::CriO => "cri-o"@,
        Runtime::Podman => "podman"@,
        Runtime::SystemdUnit => "systemd"@,
        Runtime::UserSession => "user session"@,
    }
}

impl Runtime {
    pub fn label(self) -> (r: &'static str)
        ensures
            r@ == runtime_label(self),
    {
        match self {
            Runtime::Kubernetes => "kubernetes",
            Runtime::Docker => "docker",
            Runtime::Containerd => "containerd",
            Runtime::CriO => "cri-o",
            Runtime::Podman => "podman",
            Runtime::SystemdUnit => "systemd",
            Runtime::UserSession => "user session",
        }
    }
}

#[derive(Debug, Clone, PartialEq, Eq)]
pub struct Identity {
    pub runtime: Runtime,
    pub container_id: Option<String>,
    pub pod_uid: Option<String>,
    /// Kubernetes QoS class, which is visible in the slice name and explains
    /// why this pod was an eviction candidate at all.
    pub qos_class: Option<String>,
    pub unit: Option<String>,
}

/// The abstract value of an [`Identity`]: its strings as character sequences.
pub struct IdentityView {
    pub runtime: Runtime,
    pub container_id: Option<Seq<char>>,
    pub pod_uid: Option<Seq<char>>,
    pub qos_class: Option<Seq<char>>,
    pub unit: Option<Seq<char>>,
}

pub open spec fn opt_view(o: Option<String>) -> Option<Seq<char>> {
    match o {
        Some(s) => Some(s@),
        None => None,
    }
}

impl View for Identity {
    type V = IdentityView;

    open spec fn view(&self) -> IdentityView {
        IdentityView {
            runtime: self.runtime,
            container_id: opt_view(self.container_id),
            pod_uid: opt_view(self.pod_uid),
            qos_class: opt_view(self.qos_class),
            unit: opt_view(self.unit),
        }
    }
}

/// The first 12 characters of an ID.
pub open spec fn short_id(id: Seq<char>) -> Seq<char> {
    if id.len() <= 12 {
        id
    } else {
        id.take(12)
    }
}

/// `" · " + part` when the part is present, nothing otherwise.
pub open spec fn summary_part(prefix: Seq<char>, part: Option<Seq<char>>) -> Seq<char> {
    match part {
        Some(p) => " · "@ + prefix + p,
        None => Seq::empty(),
    }
}

pub open spec fn short_opt(part: Option<Seq<char>>) -> Option<Seq<char>> {
    match part {
        Some(p) => Some(short_id(p)),
        None => None,
    }
}

/// The runtime, unit, QoS class, pod and container, joined by `" · "`,
/// with the two IDs shortened to 12 characters.
pub open spec fn summary_text(id: IdentityView) -> Seq<char> {
    runtime_label(id.runtime) + summary_part(Seq::empty(), id.unit) + summary_part(
        Seq::empty(),
        id.qos_class,
    ) + summary_part("pod "@, short_opt(id.pod_uid)) + summary_part(
        "container "@,
        short_opt(id.container_id),
    )
}

fn push_summary_part(out: &mut String, prefix: &str, part: &Option<String>, shorten: bool)
    ensures
        final(out)@ == old(out)@ + summary_part(
            prefix@,
            if shorten {
                short_opt(opt_view(*part))
            } else {
                opt_view(*part)
            },
        ),
{
    match part {
        Some(p) => {
            let ghost start = out@;
            out.append(" · ");
            out.append(prefix);
            if shorten {
                let sh = short(p.as_str());
                out.append(sh.as_str());
            } else {
                out.append(p.as_str());
            }
            assert(out@ =~= start + summary_part(
                prefix@,
                if shorten {
                    short_opt(opt_view(*part))
                } else {
                    opt_view(*part)
                },
            ));
        },
        None => {
            assert(out@ =~= old(out)@ + Seq::<char>::empty());
        },
    }
}

impl Identity {
    /// A single line fit for a table cell.
    pub fn summary(&self) -> (r: String)
        ensures
            r@ == summary_text(self@),
    {
        let mut out = String::new();
        out.append(self.runtime.label());
        push_summary_part(&mut out, "", &self.unit, false);
        push_summary_part(&mut out, "", &self.qos_class, false);
        push_summary_part(&mut out, "pod ", &self.pod_uid, true);
        push_summary_part(&mut out, "container ", &self.container_id, true);
        proof {
            reveal_strlit("");
        }
        assert(out@ =~= summary_text(self@));
        out
    }
}


// ---------------------------------------------------------------------------
// Decoding a path

/// The non-empty pieces of `s[i..]` between `/` characters
/// (`s.split('/').filter(|p| !p.is_empty())`).
pub open spec fn segments_from(s: Seq<char>, i: int) -> Seq<Seq<char>>
    decreases s.len() - i,
{
    if i < 0 || i >= s.len() {
        Seq::empty()
    } else if s[i] == '/' {
        segments_from(s, i + 1)
    } else {
        let e = next_index_of(s, i, '/');
        proof {
            lemma_next_index_of(s, i, '/');
        }
        seq![s.subrange(i, e)] + segments_from(s, e)
    }
}

pub open spec fn segments(s: Seq<char>) -> Seq<Seq<char>> {
    segments_from(s, 0)
}

pub open spec fn is_ascii_hexdigit(c: char) -> bool {
    ('0' <= c && c <= '9') || ('a' <= c && c <= 'f') || ('A' <= c && c <= 'F')
}

/// Runtimes use full 64-character SHA256 IDs; some tools truncate to 12.
pub open spec fn hex_id_spec(s: Seq<char>) -> bool {
    s.len() >= 12 && forall|i: int| 0 <= i < s.len() ==> is_ascii_hexdigit(#[trigger] s[i])
}

/// The container ID in a path segment: the hex text after its last `-`, or the
/// whole segment, once a `.scope` suffix is removed.
pub open spec fn container_id_of(segment: Seq<char>) -> Option<Seq<char>> {
    let trimmed = strip_suffix(segment, ".scope"@);
    let candidate = after_last(trimmed, '-');
    if hex_id_spec(candidate) {
        Some(candidate)
    } else if hex_id_spec(trimmed) {
        Some(trimmed)
    } else {
        None
    }
}

pub open spec fn is_ascii_alphanumeric(c: char) -> bool {
    ('0' <= c && c <= '9') || ('a' <= c && c <= 'z') || ('A' <= c && c <= 'Z')
}

pub open spec fn is_pod_uid_char(c: char) -> bool {
    is_ascii_alphanumeric(c) || c == '_' || c == '-'
}

/// The first `pod` at or after `i` that begins `s` or follows a `-`.
pub open spec fn pod_marker_from(s: Seq<char>, i: int) -> Option<int>
    decreases s.len() - i,
{
    if i < 0 || i + 3 > s.len() {
        None
    } else if has_at(s, i, "pod"@) && (i == 0 || s[i - 1] == '-') {
        Some(i)
    } else {
        pod_marker_from(s, i + 1)
    }
}

/// `s` with every `_` replaced by `-`.
pub open spec fn underscores_to_dashes(s: Seq<char>) -> Seq<char> {
    Seq::new(s.len(), |k: int| if s[k] == '_' { '-' } else { s[k] })
}

/// The pod UID in a segment such as `kubepods-burstable-pod9f2c_1234.slice`
/// or `pod9f2c-1234`: what follows the marker `pod`, when it is at least 8
/// characters of letters, digits, `_` and `-`, with `_` read as `-`.
pub open spec fn pod_uid_of(segment: Seq<char>) -> Option<Seq<char>> {
    let trimmed = strip_suffix(segment, ".slice"@);
    match pod_marker_from(trimmed, 0) {
        None => None,
        Some(start) => {
            let uid = trimmed.subrange(start + 3, trimmed.len() as int);
            if uid.len() >= 8 && forall|k: int| 0 <= k < uid.len() ==> is_pod_uid_char(#[trigger] uid[k]) {
                Some(underscores_to_dashes(uid))
            } else {
                None
            }
        },
    }
}

/// The QoS class a Kubernetes path names: `Burstable`, `BestEffort`, or,
/// directly under `kubepods`, `Guaranteed`.
pub open spec fn qos_class_of(path: Seq<char>) -> Option<Seq<char>> {
    if contains(path, "burstable"@) {
        Some("Burstable"@)
    } else if contains(path, "besteffort"@) {
        Some("BestEffort"@)
    } else if contains(path, "kubepods"@) {
        Some("Guaranteed"@)
    } else {
        None
    }
}

/// The container ID of the last of `segs[..n]` that carries one.
pub open spec fn last_container_id(segs: Seq<Seq<char>>, n: int) -> Option<Seq<char>>
    decreases n,
{
    if n <= 0 || n > segs.len() {
        None
    } else {
        match container_id_of(segs[n - 1]) {
            Some(id) => Some(id),
            None => last_container_id(segs, n - 1),
        }
    }
}

/// The pod UID of the first of `segs[i..]` that carries one.
pub open spec fn first_pod_uid(segs: Seq<Seq<char>>, i: int) -> Option<Seq<char>>
    decreases segs.len() - i,
{
    if i < 0 || i >= segs.len() {
        None
    } else {
        match pod_uid_of(segs[i]) {
            Some(uid) => Some(uid),
            None => first_pod_uid(segs, i + 1),
        }
    }
}

/// The first of `segs[i..]` that begins with `lit`.
pub open spec fn first_with_prefix(segs: Seq<Seq<char>>, i: int, lit: Seq<char>) -> Option<Seq<char>>
    decreases segs.len() - i,
{
    if i < 0 || i >= segs.len() {
        None
    } else if starts_with(segs[i], lit) {
        Some(segs[i])
    } else {
        first_with_prefix(segs, i + 1, lit)
    }
}

/// The runtime a container segment names.
pub open spec fn container_runtime(last: Seq<char>) -> Runtime {
    if contains(last, "cri-containerd"@) || starts_with(last, "containerd-"@) {
        Runtime::Containerd
    } else if contains(last, "crio"@) {
        Runtime::CriO
    } else if contains(last, "libpod"@) {
        Runtime::Podman
    } else {
        Runtime::Docker
    }
}

/// The identity a cgroup path encodes, or `None` when it encodes none.
pub open spec fn identify_spec(cgroup: Seq<char>) -> Option<IdentityView> {
    let path = trim(cgroup);
    let segs = segments(path);
    if path.len() == 0 || path == "/"@ || segs.len() == 0 {
        None
    } else if first_with_prefix(segs, 0, "kubepods"@) is Some {
        Some(
            IdentityView {
                runtime: Runtime::Kubernetes,
                container_id: last_container_id(segs, segs.len() as int),
                pod_uid: first_pod_uid(segs, 0),
                qos_class: qos_class_of(path),
                unit: None,
            },
        )
    } else {
        let last = segs.last();
        match container_id_of(last) {
            Some(id) => Some(
                IdentityView {
                    runtime: container_runtime(last),
                    container_id: Some(id),
                    pod_uid: None,
                    qos_class: None,
                    unit: None,
                },
            ),
            None => if strip_suffix(last, ".service"@) != last {
                Some(
                    IdentityView {
                        runtime: Runtime::SystemdUnit,
                        container_id: None,
                        pod_uid: None,
                        qos_class: None,
                        unit: Some(last),
                    },
                )
            } else {
                match first_with_prefix(segs, 0, "user-"@) {
                    Some(user) => Some(
                        IdentityView {
                            runtime: Runtime::UserSession,
                            container_id: None,
                            pod_uid: None,
                            qos_class: None,
                            unit: Some(user),
                        },
                    ),
                    None => None,
                }
            },
        }
    }
}

/// The bounds of the segments of `p`.
fn segment_bounds(p: &Vec<char>) -> (r: Vec<(usize, usize)>)
    ensures
        r@.len() == segments(p@).len(),
        forall|k: int|
            0 <= k < r@.len() ==> {
                &&& (#[trigger] r@[k]).0 <= r@[k].1 <= p@.len()
                &&& p@.subrange(r@[k].0 as int, r@[k].1 as int) == segments(p@)[k]
            },
{
    let mut r: Vec<(usize, usize)> = Vec::new();
    let mut i: usize = 0;
    while i < p.len()
        invariant
            i <= p.len(),
            segments(p@) == r@.map_values(|q: (usize, usize)| p@.subrange(q.0 as int, q.1 as int))
                + segments_from(p@, i as int),
            forall|k: int| 0 <= k < r@.len() ==> (#[trigger] r@[k]).0 <= r@[k].1 <= p@.len(),
        decreases p.len() - i,
    {
        if p[i] == '/' {
            i = i + 1;
        } else {
            let start = i;
            let mut e = i;
            while e < p.len() && p[e] != '/'
                invariant
                    start <= e <= p.len(),
                    start < p.len(),
                    next_index_of(p@, e as int, '/') == next_index_of(p@, start as int, '/'),
                decreases p.len() - e,
            {
                e = e + 1;
            }
            let ghost old_r = r@;
            r.push((start, e));
            i = e;
            assert(r@.map_values(|q: (usize, usize)| p@.subrange(q.0 as int, q.1 as int))
                =~= old_r.map_values(|q: (usize, usize)| p@.subrange(q.0 as int, q.1 as int))
                + seq![p@.subrange(start as int, e as int)]);
        }
        assert(segments(p@) =~= r@.map_values(|q: (usize, usize)| p@.subrange(q.0 as int, q.1 as int))
            + segments_from(p@, i as int));
    }
    assert(segments(p@) =~= r@.map_values(|q: (usize, usize)| p@.subrange(q.0 as int, q.1 as int)));
    r
}

/// Whether every character of `v[a..b]` is an ASCII hex digit, and there are at least 12.
fn hex_id_in(v: &Vec<char>, a: usize, b: usize) -> (r: bool)
    requires
        a <= b <= v.len(),
    ensures
        r == hex_id_spec(v@.subrange(a as int, b as int)),
{
    let ghost t = v@.subrange(a as int, b as int);
    if b - a < 12 {
        return false;
    }
    let mut i = a;
    while i < b
        invariant
            a <= i <= b <= v.len(),
            t == v@.subrange(a as int, b as int),
            forall|k: int| 0 <= k < i - a ==> is_ascii_hexdigit(#[trigger] t[k]),
        decreases b - i,
    {
        let c = v[i];
        assert(t[i - a] == c);
        if !(('0' <= c && c <= '9') || ('a' <= c && c <= 'f') || ('A' <= c && c <= 'F')) {
            return false;
        }
        i = i + 1;
    }
    true
}

/// The end of `v[a..b]` once `lit` is stripped from its end.
fn strip_suffix_end(v: &Vec<char>, a: usize, b: usize, lit: &str) -> (e: usize)
    requires
        a <= b <= v.len(),
    ensures
        a <= e <= b,
        v@.subrange(a as int, e as int) == strip_suffix(v@.subrange(a as int, b as int), lit@),
{
    if ends_with_in(v, a, b, lit) {
        let n = char_len_of(lit);
        assert(v@.subrange(a as int, (b - n) as int) =~= v@.subrange(a as int, b as int).take(b - a - n));
        b - n
    } else {
        assert(v@.subrange(a as int, b as int) =~= strip_suffix(v@.subrange(a as int, b as int), lit@));
        b
    }
}

fn char_len_of(lit: &str) -> (n: usize)
    ensures
        n == lit@.len(),
{
    chars_of(lit).len()
}

/// The container ID of the segment `v[a..b]`.
fn container_id_in(v: &Vec<char>, a: usize, b: usize) -> (r: Option<String>)
    requires
        a <= b <= v.len(),
    ensures
        opt_view(r) == container_id_of(v@.subrange(a as int, b as int)),
{
    let e = strip_suffix_end(v, a, b, ".scope");
    let ghost t = v@.subrange(a as int, e as int);
    // the last '-' in v[a..e]
    let mut j = e;
    while j > a && v[j - 1] != '-'
        invariant
            a <= j <= e <= v.len(),
            t == v@.subrange(a as int, e as int),
            last_index_of(t, '-', (j - a) as int) == last_index_of(t, '-', t.len() as int),
        decreases j,
    {
        assert(t[j - 1 - a] == v@[j - 1]);
        j = j - 1;
    }
    proof {
        if j > a {
            assert(t[j - 1 - a] == v@[j - 1]);
        }
        assert(last_index_of(t, '-', t.len() as int) + 1 == j - a);
        assert(after_last(t, '-') =~= v@.subrange(j as int, e as int));
    }
    if hex_id_in(v, j, e) {
        Some(string_of(v, j, e))
    } else if hex_id_in(v, a, e) {
        Some(string_of(v, a, e))
    } else {
        None
    }
}


/// The first `pod` marker in `v[a..e]`, as an index into `v`.
fn pod_marker_in(v: &Vec<char>, a: usize, e: usize) -> (r: Option<usize>)
    requires
        a <= e <= v.len(),
    ensures
        match r {
            Some(i) => a <= i && i + 3 <= e && pod_marker_from(v@.subrange(a as int, e as int), 0) == Some(
                (i - a) as int,
            ),
            None => pod_marker_from(v@.subrange(a as int, e as int), 0) is None,
        },
{
    let ghost t = v@.subrange(a as int, e as int);
    let mut i = a;
    while i < e && e - i >= 3
        invariant
            a <= i <= e <= v.len(),
            t == v@.subrange(a as int, e as int),
            pod_marker_from(t, (i - a) as int) == pod_marker_from(t, 0),
        decreases e - i,
    {
        let marker = lit_at(v, i, "pod") && (i == a || v[i - 1] == '-');
        proof {
            reveal_strlit("pod");
            assert(t.subrange((i - a) as int, (i - a) + 3) =~= v@.subrange(i as int, i + 3));
            if i > a {
                assert(t[(i - a) - 1] == v@[i - 1]);
            }
        }
        if marker {
            return Some(i);
        }
        i = i + 1;
    }
    None
}

/// The pod UID of the segment `v[a..b]`.
fn pod_uid_in(v: &Vec<char>, a: usize, b: usize) -> (r: Option<String>)
    requires
        a <= b <= v.len(),
    ensures
        opt_view(r) == pod_uid_of(v@.subrange(a as int, b as int)),
{
    let e = strip_suffix_end(v, a, b, ".slice");
    let ghost t = v@.subrange(a as int, e as int);
    let i = match pod_marker_in(v, a, e) {
        Some(i) => i,
        None => return None,
    };
    assert(pod_marker_from(t, 0) == Some((i - a) as int));
    proof {
        reveal_strlit("pod");
    }
    let start = i + 3;
    let ghost uid = t.subrange((i - a) + 3, t.len() as int);
    assert(uid =~= v@.subrange(start as int, e as int));
    if e - start < 8 {
        return None;
    }
    let mut out = String::new();
    let mut k = start;
    while k < e
        invariant
            start <= k <= e <= v.len(),
            a <= i,
            start == i + 3,
            uid == v@.subrange(start as int, e as int),
            t == v@.subrange(a as int, e as int),
            t == strip_suffix(v@.subrange(a as int, b as int), ".slice"@),
            pod_marker_from(t, 0) == Some((i - a) as int),
            uid == t.subrange((i - a) + 3, t.len() as int),
            uid.len() >= 8,
            forall|j: int| 0 <= j < k - start ==> is_pod_uid_char(#[trigger] uid[j]),
            out@ == underscores_to_dashes(uid).take(k - start),
        decreases e - k,
    {
        let c = v[k];
        assert(uid[k - start] == c);
        let ok = ('0' <= c && c <= '9') || ('a' <= c && c <= 'z') || ('A' <= c && c <= 'Z') || c == '_'
            || c == '-';
        if !ok {
            assert(!is_pod_uid_char(uid[k - start]));
            return None;
        }
        if c == '_' {
            out.push('-');
        } else {
            out.push(c);
        }
        k = k + 1;
        assert(out@ =~= underscores_to_dashes(uid).take(k - start));
    }
    assert(underscores_to_dashes(uid).take(e - start) =~= underscores_to_dashes(uid));
    Some(out)
}

/// The QoS class named in `v[a..b]`.
fn qos_class_in(v: &Vec<char>, a: usize, b: usize) -> (r: Option<String>)
    requires
        a <= b <= v.len(),
    ensures
        opt_view(r) == qos_class_of(v@.subrange(a as int, b as int)),
{
    if contains_in(v, a, b, "burstable") {
        Some(String::from_str("Burstable"))
    } else if contains_in(v, a, b, "besteffort") {
        Some(String::from_str("BestEffort"))
    } else if contains_in(v, a, b, "kubepods") {
        Some(String::from_str("Guaranteed"))
    } else {
        None
    }
}

/// The runtime a container segment `v[a..b]` names.
fn container_runtime_in(v: &Vec<char>, a: usize, b: usize) -> (r: Runtime)
    requires
        a <= b <= v.len(),
    ensures
        r == container_runtime(v@.subrange(a as int, b as int)),
{
    if contains_in(v, a, b, "cri-containerd") || starts_with_in(v, a, b, "containerd-") {
        Runtime::Containerd
    } else if contains_in(v, a, b, "crio") {
        Runtime::CriO
    } else if contains_in(v, a, b, "libpod") {
        Runtime::Podman
    } else {
        Runtime::Docker
    }
}

/// `segs` holds the bounds of the segments of `p`.
pub open spec fn segment_bounds_of(p: Seq<char>, segs: Seq<(usize, usize)>) -> bool {
    &&& segs.len() == segments(p).len()
    &&& forall|k: int|
        0 <= k < segs.len() ==> {
            &&& (#[trigger] segs[k]).0 <= segs[k].1 <= p.len()
            &&& p.subrange(segs[k].0 as int, segs[k].1 as int) == segments(p)[k]
        }
}

/// The index of the first segment that begins with `lit`.
fn first_prefixed(p: &Vec<char>, segs: &Vec<(usize, usize)>, lit: &str) -> (r: Option<usize>)
    requires
        segment_bounds_of(p@, segs@),
    ensures
        match r {
            Some(i) => i < segs@.len() && first_with_prefix(segments(p@), 0, lit@) == Some(
                segments(p@)[i as int],
            ),
            None => first_with_prefix(segments(p@), 0, lit@) is None,
        },
{
    let ghost ss = segments(p@);
    let mut i: usize = 0;
    while i < segs.len()
        invariant
            i <= segs.len(),
            segment_bounds_of(p@, segs@),
            ss == segments(p@),
            first_with_prefix(ss, i as int, lit@) == first_with_prefix(ss, 0, lit@),
        decreases segs.len() - i,
    {
        let (a, b) = segs[i];
        if starts_with_in(p, a, b, lit) {
            return Some(i);
        }
        i = i + 1;
    }
    None
}

/// The container ID of the last segment that carries one.
fn last_container_id_in(p: &Vec<char>, segs: &Vec<(usize, usize)>) -> (r: Option<String>)
    requires
        segment_bounds_of(p@, segs@),
    ensures
        opt_view(r) == last_container_id(segments(p@), segments(p@).len() as int),
{
    let ghost ss = segments(p@);
    let mut j = segs.len();
    while j > 0
        invariant
            j <= segs.len(),
            segment_bounds_of(p@, segs@),
            ss == segments(p@),
            last_container_id(ss, j as int) == last_container_id(ss, ss.len() as int),
        decreases j,
    {
        let (a, b) = segs[j - 1];
        let id = container_id_in(p, a, b);
        if id.is_some() {
            return id;
        }
        j = j - 1;
    }
    None
}

/// The pod UID of the first segment that carries one.
fn first_pod_uid_in(p: &Vec<char>, segs: &Vec<(usize, usize)>) -> (r: Option<String>)
    requires
        segment_bounds_of(p@, segs@),
    ensures
        opt_view(r) == first_pod_uid(segments(p@), 0),
{
    let ghost ss = segments(p@);
    let mut k: usize = 0;
    while k < segs.len()
        invariant
            k <= segs.len(),
            segment_bounds_of(p@, segs@),
            ss == segments(p@),
            first_pod_uid(ss, k as int) == first_pod_uid(ss, 0),
        decreases segs.len() - k,
    {
        let (a, b) = segs[k];
        let uid = pod_uid_in(p, a, b);
        if uid.is_some() {
            return uid;
        }
        k = k + 1;
    }
    None
}

/// Best-effort identification. Returns `None` for a cgroup that carries no
/// recognisable identity (e.g. `/`), rather than inventing one.
pub fn identify(cgroup: &str) -> (r: Option<Identity>)
    ensures
        match r {
            Some(id) => identify_spec(cgroup@) == Some(id@),
            None => identify_spec(cgroup@) is None,
        },
{
    let all = chars_of(cgroup);
    let (ta, tb) = trim_bounds(&all, 0, all.len());
    assert(all@.subrange(0, all@.len() as int) =~= cgroup@);
    let p = sub_vec(&all, ta, tb);
    let ghost path = p@;
    assert(path == trim(cgroup@));
    proof {
        reveal_strlit("/");
    }
    if p.len() == 0 || (p.len() == 1 && p[0] == '/') {
        proof {
            if p.len() == 1 {
                assert(path =~= "/"@);
            }
        }
        return None;
    }
    assert(path != "/"@);
    let segs = segment_bounds(&p);
    let ghost ss = segments(path);
    if segs.len() == 0 {
        return None;
    }
    // Kubernetes: both the systemd driver (kubepods-burstable.slice) and the
    // cgroupfs driver (kubepods/burstable) put "kubepods" in the path.
    if first_prefixed(&p, &segs, "kubepods").is_some() {
        let container_id = last_container_id_in(&p, &segs);
        let pod_uid = first_pod_uid_in(&p, &segs);
        let qos_class = qos_class_in(&p, 0, p.len());
        assert(p@.subrange(0, p@.len() as int) =~= path);
        return Some(
            Identity { runtime: Runtime::Kubernetes, container_id, pod_uid, qos_class, unit: None },
        );
    }
    let (la, lb) = segs[segs.len() - 1];
    assert(p@.subrange(la as int, lb as int) == ss.last());
    let id = container_id_in(&p, la, lb);
    if let Some(id) = id {
        let runtime = container_runtime_in(&p, la, lb);
        return Some(
            Identity {
                runtime,
                container_id: Some(id),
                pod_uid: None,
                qos_class: None,
                unit: None,
            },
        );
    }
    let e = strip_suffix_end(&p, la, lb, ".service");
    if e != lb {
        assert(strip_suffix(ss.last(), ".service"@).len() < ss.last().len());
        return Some(
            Identity {
                runtime: Runtime::SystemdUnit,
                container_id: None,
                pod_uid: None,
                qos_class: None,
                unit: Some(string_of(&p, la, lb)),
            },
        );
    }
    assert(strip_suffix(ss.last(), ".service"@) == ss.last());
    match first_prefixed(&p, &segs, "user-") {
        Some(m) => {
            let (a, b) = segs[m];
            Some(
                Identity {
                    runtime: Runtime::UserSession,
                    container_id: None,
                    pod_uid: None,
                    qos_class: None,
                    unit: Some(string_of(&p, a, b)),
                },
            )
        },
        None => None,
    }
}


// ---------------------------------------------------------------------------
// What an identity promises

/// `x` is a piece of `s`: `s[a..b]` for some `a <= b`.
pub open spec fn is_piece_of(x: Seq<char>, s: Seq<char>) -> bool {
    exists|a: int, b: int| 0 <= a <= b <= s.len() && #[trigger] s.subrange(a, b) == x
}

proof fn lemma_piece_of_piece(x: Seq<char>, y: Seq<char>, s: Seq<char>)
    requires
        is_piece_of(x, y),
        is_piece_of(y, s),
    ensures
        is_piece_of(x, s),
{
    let (a, b) = choose|a: int, b: int| 0 <= a <= b <= y.len() && #[trigger] y.subrange(a, b) == x;
    let (c, d) = choose|c: int, d: int| 0 <= c <= d <= s.len() && #[trigger] s.subrange(c, d) == y;
    assert(s.subrange(c + a, c + b) =~= x);
}

proof fn lemma_piece_contained(x: Seq<char>, s: Seq<char>)
    requires
        is_piece_of(x, s),
    ensures
        contains(s, x),
{
    let (a, b) = choose|a: int, b: int| 0 <= a <= b <= s.len() && #[trigger] s.subrange(a, b) == x;
    assert(has_at(s, a, x));
}

proof fn lemma_trim_is_piece(s: Seq<char>)
    ensures
        is_piece_of(trim(s), s),
{
    lemma_trim_start_bounds(s, 0);
    lemma_trim_end_bounds(s, s.len() as int);
    let a = trim_start_index(s, 0);
    let b = trim_end_index(s, s.len() as int);
    if a < b {
        assert(s.subrange(a, b) == trim(s));
    } else {
        assert(s.subrange(0, 0) =~= trim(s));
    }
}

proof fn lemma_segments_are_pieces(s: Seq<char>, i: int)
    requires
        0 <= i,
    ensures
        forall|k: int| 0 <= k < segments_from(s, i).len() ==> is_piece_of(#[trigger] segments_from(s, i)[k], s),
    decreases s.len() - i,
{
    if i < s.len() {
        if s[i] == '/' {
            lemma_segments_are_pieces(s, i + 1);
            assert(segments_from(s, i) == segments_from(s, i + 1));
        } else {
            let e = next_index_of(s, i, '/');
            lemma_next_index_of(s, i, '/');
            lemma_segments_are_pieces(s, e);
            let rest = segments_from(s, e);
            assert(segments_from(s, i) == seq![s.subrange(i, e)] + rest);
            assert(is_piece_of(s.subrange(i, e), s));
            assert forall|k: int| 0 <= k < segments_from(s, i).len() implies is_piece_of(
                #[trigger] segments_from(s, i)[k],
                s,
            ) by {
                if k == 0 {
                    assert(segments_from(s, i)[0] == s.subrange(i, e));
                } else {
                    assert(segments_from(s, i)[k] == rest[k - 1]);
                }
            }
        }
    }
}

proof fn lemma_container_id_is_piece(segment: Seq<char>)
    ensures
        container_id_of(segment) matches Some(id) ==> is_piece_of(id, segment) && hex_id_spec(id),
{
    let trimmed = strip_suffix(segment, ".scope"@);
    assert(is_piece_of(trimmed, segment)) by {
        if segment.len() >= (".scope"@).len() && ends_with(segment, ".scope"@) {
            assert(segment.subrange(0, segment.len() - (".scope"@).len()) == trimmed);
        } else {
            assert(segment.subrange(0, segment.len() as int) =~= trimmed);
        }
    }
    lemma_last_index_of(trimmed, '-', trimmed.len() as int);
    let candidate = after_last(trimmed, '-');
    assert(trimmed.subrange(last_index_of(trimmed, '-', trimmed.len() as int) + 1, trimmed.len() as int)
        == candidate);
    assert(is_piece_of(candidate, trimmed));
    lemma_piece_of_piece(candidate, trimmed, segment);
}

proof fn lemma_last_container_id_from(segs: Seq<Seq<char>>, n: int)
    ensures
        last_container_id(segs, n) matches Some(id) ==> exists|k: int|
            0 <= k < segs.len() && container_id_of(#[trigger] segs[k]) == Some(id),
    decreases n,
{
    if 0 < n <= segs.len() {
        if container_id_of(segs[n - 1]) is None {
            lemma_last_container_id_from(segs, n - 1);
        }
    }
}

proof fn lemma_first_with_prefix(segs: Seq<Seq<char>>, i: int, lit: Seq<char>)
    requires
        0 <= i,
    ensures
        first_with_prefix(segs, i, lit) is Some <==> exists|k: int| i <= k < segs.len() && starts_with(#[trigger] segs[k], lit),
    decreases segs.len() - i,
{
    if i < segs.len() {
        lemma_first_with_prefix(segs, i + 1, lit);
        if !starts_with(segs[i], lit) {
            if exists|k: int| i <= k < segs.len() && starts_with(#[trigger] segs[k], lit) {
                let k = choose|k: int| i <= k < segs.len() && starts_with(#[trigger] segs[k], lit);
                assert(k != i);
                assert(i + 1 <= k);
            }
        }
    }
}

proof fn lemma_trim_twice(s: Seq<char>)
    ensures
        trim(trim(s)) == trim(s),
{
    lemma_trim_start_bounds(s, 0);
    lemma_trim_end_bounds(s, s.len() as int);
    let t = trim(s);
    let a = trim_start_index(s, 0);
    let b = trim_end_index(s, s.len() as int);
    if a < b {
        assert(t[0] == s[a]);
        assert(t[t.len() - 1] == s[b - 1]);
        assert(trim_start_index(t, 0) == 0);
        assert(trim_end_index(t, t.len() as int) == t.len());
        assert(trim(t) =~= t);
    } else {
        assert(trim(t) =~= t);
    }
}

/// What an identity promises. Surrounding white space changes nothing; a
/// path with no segments identifies nothing; it is a Kubernetes workload
/// exactly when a segment begins with `kubepods`, and only then carries a
/// pod UID or a QoS class; a container ID is at least 12 hex digits, taken
/// from the path itself.
pub proof fn lemma_identity_laws(cgroup: Seq<char>)
    ensures
        identify_spec(trim(cgroup)) == identify_spec(cgroup),
        segments(trim(cgroup)).len() == 0 ==> identify_spec(cgroup) is None,
        identify_spec(cgroup) matches Some(id) ==> {
            &&& (id.runtime == Runtime::Kubernetes <==> exists|k: int|
                0 <= k < segments(trim(cgroup)).len() && starts_with(
                    #[trigger] segments(trim(cgroup))[k],
                    "kubepods"@,
                ))
            &&& (id.qos_class is Some || id.pod_uid is Some) ==> id.runtime == Runtime::Kubernetes
            &&& id.container_id matches Some(c) ==> hex_id_spec(c) && contains(cgroup, c)
        },
{
    lemma_trim_twice(cgroup);
    let path = trim(cgroup);
    let segs = segments(path);
    lemma_first_with_prefix(segs, 0, "kubepods"@);
    if let Some(id) = identify_spec(cgroup) {
        if let Some(c) = id.container_id {
            let k = if first_with_prefix(segs, 0, "kubepods"@) is Some {
                lemma_last_container_id_from(segs, segs.len() as int);
                choose|k: int| 0 <= k < segs.len() && container_id_of(#[trigger] segs[k]) == Some(c)
            } else {
                segs.len() - 1
            };
            lemma_container_id_is_piece(segs[k]);
            lemma_segments_are_pieces(path, 0);
            lemma_trim_is_piece(cgroup);
            lemma_piece_of_piece(c, segs[k], path);
            lemma_piece_of_piece(c, path, cgroup);
            lemma_piece_contained(c, cgroup);
        }
    }
}

/// The root cgroup, or no cgroup at all, identifies no workload: nothing is
/// guessed.
pub proof fn lemma_root_cgroup_has_no_identity(cgroup: Seq<char>)
    requires
        trim(cgroup) == "/"@ || trim(cgroup).len() == 0,
    ensures
        identify_spec(cgroup) is None,
{
}


/// Container and pod IDs are 64 hex characters; nobody reads past the first 12.
pub fn short(id: &str) -> (r: String)
    ensures
        r@ == short_id(id@),
{
    let v = chars_of(id);
    let n = if v.len() <= 12 {
        v.len()
    } else {
        12
    };
    let r = string_of(&v, 0, n);
    assert(v@.subrange(0, n as int) =~= short_id(id@));
    r
}

/// Whether `s` looks like a runtime's container or pod ID: at least 12
/// characters, all hex digits (some tools truncate the full 64).
pub fn is_hex_id(s: &str) -> (r: bool)
    ensures
        r == hex_id_spec(s@),
{
    let v = chars_of(s);
    let r = hex_id_in(&v, 0, v.len());
    assert(v@.subrange(0, v@.len() as int) =~= v@);
    r
}

/// Pull a container ID out of a path segment, tolerating the various runtime
/// prefixes (`docker-`, `cri-containerd-`, `crio-`, `libpod-`) and the
/// `.scope` suffix the systemd driver appends.
pub fn container_id(segment: &str) -> (r: Option<String>)
    ensures
        opt_view(r) == container_id_of(segment@),
{
    let v = chars_of(segment);
    assert(v@.subrange(0, v@.len() as int) =~= v@);
    container_id_in(&v, 0, v.len())
}

/// The pod UID of a segment (`kubepods-burstable-pod9f2c_1234.slice` or
/// `pod9f2c-1234`), with the dashes the systemd driver wrote as underscores
/// put back.
pub fn pod_uid(segment: &str) -> (r: Option<String>)
    ensures
        opt_view(r) == pod_uid_of(segment@),
{
    let v = chars_of(segment);
    assert(v@.subrange(0, v@.len() as int) =~= v@);
    pod_uid_in(&v, 0, v.len())
}

/// The Kubernetes QoS class a cgroup path sits under.
pub fn qos_class(path: &str) -> (r: Option<String>)
    ensures
        opt_view(r) == qos_class_of(path@),
{
    let v = chars_of(path);
    assert(v@.subrange(0, v@.len() as int) =~= v@);
    qos_class_in(&v, 0, v.len())
}

/// Outside Kubernetes, the runtime of a container is read off the path
/// segment that carries its ID: containerd exactly when it contains
/// `cri-containerd` or begins with `containerd-`; otherwise CRI-O exactly
/// when it contains `crio`; otherwise Podman exactly when it contains
/// `libpod`; and Docker for every other segment (such as `docker-<id>.scope`).
pub proof fn lemma_runtime_follows_the_container_segment(cgroup: Seq<char>)
    ensures
        identify_spec(cgroup) matches Some(id) ==> (id.runtime != Runtime::Kubernetes && id.container_id is Some) ==> {
            let last = segments(trim(cgroup)).last();
            let containerd = contains(last, "cri-containerd"@) || starts_with(last, "containerd-"@);
            let crio = contains(last, "crio"@);
            let podman = contains(last, "libpod"@);
            &&& (id.runtime == Runtime::Containerd <==> containerd)
            &&& (id.runtime == Runtime::CriO <==> !containerd && crio)
            &&& (id.runtime == Runtime::Podman <==> !containerd && !crio && podman)
            &&& (id.runtime == Runtime::Docker <==> !containerd && !crio && !podman)
        },
{
}

} // verus!
