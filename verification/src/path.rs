//! Unix paths as byte strings.
//!
//! A path is a sequence of components: an optional root or leading `.`, then the names between
//! separators. Empty names and any later `.` do not count. Two paths are the same when their
//! components are.
use vstd::prelude::*;
use vstd::slice::{slice_subrange, slice_to_vec};

verus! {

pub const SEPARATOR: u8 = 0x2f;

pub const DOT: u8 = 0x2e;

/// One component of a path.
pub enum Component {
    Root,
    CurDir,
    Name(Seq<u8>),
}

pub open spec fn is_absolute(p: Seq<u8>) -> bool {
    p.len() > 0 && p[0] == SEPARATOR
}

/// `p` is `.` or begins with `./`.
pub open spec fn has_leading_dot(p: Seq<u8>) -> bool {
    p.len() > 0 && p[0] == DOT && (p.len() == 1 || p[1] == SEPARATOR)
}

/// Number of bytes taken by the root or by a leading `.`.
pub open spec fn body_start(p: Seq<u8>) -> int {
    if is_absolute(p) || has_leading_dot(p) {
        1
    } else {
        0
    }
}

/// Position of the first separator at or after `i`, or the length of `p`.
pub open spec fn name_end(p: Seq<u8>, i: int) -> int
    decreases p.len() - i,
{
    if i >= p.len() || p[i] == SEPARATOR {
        i
    } else {
        name_end(p, i + 1)
    }
}

/// The bytes `i..j` of `p` are a name: neither empty nor `.`.
pub open spec fn counts(p: Seq<u8>, i: int, j: int) -> bool {
    i < j && !(j == i + 1 && p[i] == DOT)
}

/// The ranges of the names of `p` that begin at `i` or later.
pub open spec fn names_from(p: Seq<u8>, i: int) -> Seq<(int, int)>
    decreases p.len() + 1 - i,
{
    if i < 0 || i >= p.len() {
        seq![]
    } else {
        let j = name_end(p, i);
        proof {
            lemma_name_end(p, i);
        }
        let rest = names_from(p, j + 1);
        if counts(p, i, j) {
            seq![(i, j)] + rest
        } else {
            rest
        }
    }
}

/// The ranges of all names of `p`, in order.
pub open spec fn names(p: Seq<u8>) -> Seq<(int, int)> {
    names_from(p, body_start(p))
}

/// The root or the leading `.` of `p`, if it has one.
pub open spec fn lead(p: Seq<u8>) -> Seq<Component> {
    if is_absolute(p) {
        seq![Component::Root]
    } else if has_leading_dot(p) {
        seq![Component::CurDir]
    } else {
        seq![]
    }
}

pub open spec fn name_at(p: Seq<u8>, range: (int, int)) -> Component {
    Component::Name(p.subrange(range.0, range.1))
}

pub open spec fn components(p: Seq<u8>) -> Seq<Component> {
    lead(p) + Seq::new(names(p).len(), |k: int| name_at(p, names(p)[k]))
}

/// Number of bytes of `p` that remain without its last component; `None` for a path that has no
/// component or only a root.
pub open spec fn parent_len(p: Seq<u8>) -> Option<int> {
    let n = names(p);
    if n.len() >= 2 {
        Some(n[n.len() - 2].1)
    } else if n.len() == 1 {
        Some(body_start(p))
    } else if has_leading_dot(p) {
        Some(0int)
    } else {
        None
    }
}

/// The path without its last component.
pub open spec fn parent(p: Seq<u8>) -> Option<Seq<u8>> {
    match parent_len(p) {
        Some(k) => Some(p.take(k)),
        None => None,
    }
}

/// The path without its last `k` components.
pub open spec fn ancestor(p: Seq<u8>, k: nat) -> Option<Seq<u8>>
    decreases k,
{
    if k == 0 {
        Some(p)
    } else {
        match parent(p) {
            Some(q) => ancestor(q, (k - 1) as nat),
            None => None,
        }
    }
}

/// The last component, if it is a name other than `..`.
pub open spec fn file_name(p: Seq<u8>) -> Option<Seq<u8>> {
    let n = names(p);
    if n.len() == 0 {
        None
    } else {
        let last = p.subrange(n.last().0, n.last().1);
        if last == seq![DOT, DOT] {
            None
        } else {
            Some(last)
        }
    }
}

/// `tail` seen from `base`: an absolute `tail` stands for itself.
pub open spec fn join(base: Seq<u8>, tail: Seq<u8>) -> Seq<u8> {
    if is_absolute(tail) {
        tail
    } else if base.len() == 0 || base.last() == SEPARATOR {
        base + tail
    } else {
        base + seq![SEPARATOR] + tail
    }
}

/// Number of bytes up to the end of the last name.
pub open spec fn trimmed_len(p: Seq<u8>) -> int {
    if names(p).len() == 0 {
        body_start(p)
    } else {
        names(p).last().1
    }
}

/// What of `p` follows the components of `base`; `None` unless `p` begins with them.
pub open spec fn strip_prefix(p: Seq<u8>, base: Seq<u8>) -> Option<Seq<u8>> {
    if !components(base).is_prefix_of(components(p)) {
        None
    } else if components(base).len() == 0 {
        Some(p.take(trimmed_len(p)))
    } else {
        let first = components(base).len() - lead(p).len();
        if first >= names(p).len() {
            Some(seq![])
        } else {
            Some(p.subrange(names(p)[first].0, names(p).last().1))
        }
    }
}

/// The two paths have the same components.
pub open spec fn same_path(p: Seq<u8>, q: Seq<u8>) -> bool {
    components(p) == components(q)
}

pub proof fn lemma_name_end(p: Seq<u8>, i: int)
    requires
        0 <= i <= p.len(),
    ensures
        i <= name_end(p, i) <= p.len(),
        forall|k: int| i <= k < name_end(p, i) ==> p[k] != SEPARATOR,
        name_end(p, i) < p.len() ==> p[name_end(p, i)] == SEPARATOR,
    decreases p.len() - i,
{
    if i < p.len() && p[i] != SEPARATOR {
        lemma_name_end(p, i + 1);
    }
}

/// Names are nonempty, lie within the path and follow each other.
pub proof fn lemma_names_from(p: Seq<u8>, i: int)
    requires
        0 <= i,
    ensures
        forall|k: int|
            0 <= k < names_from(p, i).len() ==> i <= (#[trigger] names_from(p, i)[k]).0
                < names_from(p, i)[k].1 <= p.len(),
        forall|k: int, l: int|
            0 <= k < l < names_from(p, i).len() ==> (#[trigger] names_from(p, i)[k]).1 < (
            #[trigger] names_from(p, i)[l]).0,
    decreases p.len() + 1 - i,
{
    if i < p.len() {
        lemma_name_end(p, i);
        let j = name_end(p, i);
        lemma_names_from(p, j + 1);
        let rest = names_from(p, j + 1);
        let all = names_from(p, i);
        let skipped: int = if counts(p, i, j) {
            1
        } else {
            0
        };
        assert forall|k: int| 0 <= k < all.len() implies i <= (#[trigger] all[k]).0 < all[k].1
            <= p.len() by {
            if k >= skipped {
                assert(all[k] == rest[k - skipped]);
            }
        }
        assert forall|k: int, l: int| 0 <= k < l < all.len() implies (#[trigger] all[k]).1 < (
        #[trigger] all[l]).0 by {
            assert(all[l] == rest[l - skipped]);
            if k >= skipped {
                assert(all[k] == rest[k - skipped]);
            }
        }
    }
}

/// The parent of a path is shorter than the path.
pub proof fn lemma_parent_shorter(p: Seq<u8>)
    ensures
        parent_len(p) matches Some(k) ==> 0 <= k < p.len(),
        parent(p) matches Some(q) ==> q.len() < p.len(),
{
    lemma_names_from(p, body_start(p));
    let n = names(p);
    if n.len() >= 2 {
        assert(n[n.len() - 2].1 < n[n.len() - 1].0);
    } else if n.len() == 1 {
        assert(body_start(p) <= n[0].0 < n[0].1 <= p.len());
    }
}

/// A path by its bytes.
#[derive(Debug)]
pub struct UnixPath {
    pub bytes: Vec<u8>,
}

impl View for UnixPath {
    type V = Seq<u8>;

    open spec fn view(&self) -> Seq<u8> {
        self.bytes@
    }
}

impl DeepView for UnixPath {
    type V = Seq<u8>;

    open spec fn deep_view(&self) -> Seq<u8> {
        self@
    }
}

impl Clone for UnixPath {
    fn clone(&self) -> (r: Self)
        ensures
            r@ == self@,
    {
        UnixPath { bytes: slice_to_vec(self.bytes.as_slice()) }
    }
}

/// The ranges as integers.
pub open spec fn ranges(v: Seq<(usize, usize)>) -> Seq<(int, int)> {
    Seq::new(v.len(), |k: int| (v[k].0 as int, v[k].1 as int))
}

fn is_separator(p: &[u8], i: usize) -> (r: bool)
    requires
        i < p@.len(),
    ensures
        r == (p@[i as int] == SEPARATOR),
{
    p[i] == SEPARATOR
}

fn has_root(p: &[u8]) -> (r: bool)
    ensures
        r == is_absolute(p@),
{
    p.len() > 0 && p[0] == SEPARATOR
}

fn starts_with_dot(p: &[u8]) -> (r: bool)
    ensures
        r == has_leading_dot(p@),
{
    p.len() > 0 && p[0] == DOT && (p.len() == 1 || p[1] == SEPARATOR)
}

fn body_offset(p: &[u8]) -> (r: usize)
    ensures
        r == body_start(p@),
        r <= p@.len(),
{
    if has_root(p) || starts_with_dot(p) {
        1
    } else {
        0
    }
}

/// Ranges of the names of a path.
fn split_names(p: &[u8]) -> (r: Vec<(usize, usize)>)
    ensures
        ranges(r@) == names(p@),
{
    let mut found: Vec<(usize, usize)> = Vec::new();
    let mut i: usize = body_offset(p);
    assert(ranges(found@) + names_from(p@, i as int) =~= names(p@));
    while i < p.len()
        invariant
            i <= p@.len(),
            ranges(found@) + names_from(p@, i as int) == names(p@),
        decreases p@.len() - i,
    {
        let start: usize = i;
        let ghost before = found@;
        while i < p.len() && !is_separator(p, i)
            invariant
                start <= i <= p@.len(),
                name_end(p@, start as int) == name_end(p@, i as int),
            decreases p@.len() - i,
        {
            i = i + 1;
        }
        assert(name_end(p@, start as int) == i);
        if i > start && !(i - start == 1 && p[start] == DOT) {
            found.push((start, i));
            assert(ranges(found@) =~= ranges(before).push((start as int, i as int)));
        }
        assert(ranges(found@) + names_from(p@, i + 1) =~= names(p@));
        if i < p.len() {
            i = i + 1;
        }
    }
    assert(ranges(found@) =~= names(p@));
    found
}

/// Whether two byte strings are equal.
pub fn bytes_equal(a: &[u8], b: &[u8]) -> (r: bool)
    ensures
        r == (a@ == b@),
{
    if a.len() != b.len() {
        return false;
    }
    let mut i: usize = 0;
    while i < a.len()
        invariant
            i <= a@.len(),
            a@.len() == b@.len(),
            forall|k: int| 0 <= k < i ==> a@[k] == b@[k],
        decreases a@.len() - i,
    {
        if a[i] != b[i] {
            return false;
        }
        i = i + 1;
    }
    assert(a@ =~= b@);
    true
}

/// Whether the first `count` names of two paths are equal.
fn names_agree(
    p: &[u8],
    p_names: &Vec<(usize, usize)>,
    q: &[u8],
    q_names: &Vec<(usize, usize)>,
    count: usize,
) -> (r: bool)
    requires
        ranges(p_names@) == names(p@),
        ranges(q_names@) == names(q@),
        count <= p_names@.len(),
        count <= q_names@.len(),
    ensures
        r == (forall|k: int|
            0 <= k < count ==> #[trigger] name_at(p@, names(p@)[k]) == name_at(
                q@,
                names(q@)[k],
            )),
{
    proof {
        lemma_names_from(p@, body_start(p@));
        lemma_names_from(q@, body_start(q@));
    }
    let mut i: usize = 0;
    while i < count
        invariant
            i <= count,
            ranges(p_names@) == names(p@),
            ranges(q_names@) == names(q@),
            count <= p_names@.len(),
            count <= q_names@.len(),
            forall|k: int|
                0 <= k < names(p@).len() ==> 0 <= (#[trigger] names(p@)[k]).0 < names(p@)[k].1
                    <= p@.len(),
            forall|k: int|
                0 <= k < names(q@).len() ==> 0 <= (#[trigger] names(q@)[k]).0 < names(q@)[k].1
                    <= q@.len(),
            forall|k: int|
                0 <= k < i ==> #[trigger] name_at(p@, names(p@)[k]) == name_at(q@, names(q@)[k]),
        decreases count - i,
    {
        let (p_start, p_end) = p_names[i];
        let (q_start, q_end) = q_names[i];
        assert(names(p@)[i as int] == (p_start as int, p_end as int));
        assert(names(q@)[i as int] == (q_start as int, q_end as int));
        if !bytes_equal(slice_subrange(p, p_start, p_end), slice_subrange(q, q_start, q_end)) {
            assert(name_at(p@, names(p@)[i as int]) != name_at(q@, names(q@)[i as int]));
            return false;
        }
        i = i + 1;
    }
    true
}

/// With the same root or leading `.`, the components of one path are a prefix of those of another
/// exactly when its names are.
proof fn lemma_prefix_by_names(base: Seq<u8>, p: Seq<u8>)
    ensures
        lead(base) == lead(p) ==> (components(base).is_prefix_of(components(p)) <==> (names(
            base,
        ).len() <= names(p).len() && forall|k: int|
            0 <= k < names(base).len() ==> #[trigger] name_at(base, names(base)[k]) == name_at(
                p,
                names(p)[k],
            ))),
        lead(base) != lead(p) ==> (components(base).is_prefix_of(components(p))
            <==> components(base).len() == 0),
{
    let bc = components(base);
    let pc = components(p);
    let n = lead(p).len() as int;
    if lead(base) == lead(p) {
        if bc.is_prefix_of(pc) {
            assert forall|k: int| 0 <= k < names(base).len() implies #[trigger] name_at(
                base,
                names(base)[k],
            ) == name_at(p, names(p)[k]) by {
                assert(bc[n + k] == pc.take(bc.len() as int)[n + k]);
            }
        } else if names(base).len() <= names(p).len() && forall|k: int|
            0 <= k < names(base).len() ==> #[trigger] name_at(base, names(base)[k]) == name_at(
                p,
                names(p)[k],
            ) {
            assert forall|i: int| 0 <= i < bc.len() implies bc[i] == pc[i] by {
                if i >= n {
                    assert(bc[i] == name_at(base, names(base)[i - n]));
                    assert(pc[i] == name_at(p, names(p)[i - n]));
                }
            }
            assert(bc =~= pc.take(bc.len() as int));
        }
    } else {
        if bc.len() == 0 {
            assert(bc =~= pc.take(0));
        } else if bc.is_prefix_of(pc) {
            assert(bc[0] == pc.take(bc.len() as int)[0]);
            assert(bc[0] == pc[0]);
            if lead(base).len() == 1 {
                assert(bc[0] == lead(base)[0]);
            } else {
                assert(bc[0] == name_at(base, names(base)[0]));
            }
            if lead(p).len() == 1 {
                assert(pc[0] == lead(p)[0]);
            } else {
                assert(pc[0] == name_at(p, names(p)[0]));
            }
            assert(lead(base) =~= lead(p));
        }
    }
}

impl UnixPath {
    /// Whether the path begins with a separator.
    pub fn is_absolute(&self) -> (r: bool)
        ensures
            r == is_absolute(self@),
    {
        has_root(self.bytes.as_slice())
    }

    /// The path without its last component, or `None` if there is none to take away.
    pub fn parent(&self) -> (r: Option<UnixPath>)
        ensures
            r.deep_view() == parent(self@),
    {
        let p = self.bytes.as_slice();
        let found = split_names(p);
        proof {
            lemma_parent_shorter(self@);
        }
        let count: usize = found.len();
        let length: usize = if count >= 2 {
            assert(names(self@)[count - 2] == ranges(found@)[count - 2]);
            found[count - 2].1
        } else if count == 1 {
            body_offset(p)
        } else if starts_with_dot(p) {
            0
        } else {
            return None;
        };
        assert(parent_len(self@) == Some(length as int));
        let q = UnixPath { bytes: slice_to_vec(slice_subrange(p, 0, length)) };
        assert(q@ =~= self@.take(length as int));
        Some(q)
    }

    /// The last component, if it is a name other than `..`.
    pub fn file_name(&self) -> (r: Option<Vec<u8>>)
        ensures
            (match r {
                Some(name) => Some(name@),
                None => None,
            }) == file_name(self@),
    {
        let p = self.bytes.as_slice();
        let found = split_names(p);
        let count: usize = found.len();
        if count == 0 {
            return None;
        }
        proof {
            lemma_names_from(self@, body_start(self@));
        }
        let (start, end) = found[count - 1];
        assert(names(self@).last() == (start as int, end as int));
        let last = slice_subrange(p, start, end);
        if last.len() == 2 && last[0] == DOT && last[1] == DOT {
            assert(last@ =~= seq![DOT, DOT]);
            None
        } else {
            Some(slice_to_vec(last))
        }
    }

    /// The path `tail` seen from this one.
    pub fn join(&self, tail: &[u8]) -> (r: UnixPath)
        ensures
            r@ == join(self@, tail@),
    {
        if has_root(tail) {
            return UnixPath { bytes: slice_to_vec(tail) };
        }
        let mut bytes = slice_to_vec(self.bytes.as_slice());
        if bytes.len() > 0 && bytes[bytes.len() - 1] != SEPARATOR {
            bytes.push(SEPARATOR);
        }
        bytes.extend_from_slice(tail);
        assert(bytes@ =~= join(self@, tail@));
        UnixPath { bytes }
    }

    /// What follows the components of `base`, or `None` unless the path begins with them.
    pub fn strip_prefix(&self, base: &UnixPath) -> (r: Option<UnixPath>)
        ensures
            r.deep_view() == strip_prefix(self@, base@),
    {
        let p = self.bytes.as_slice();
        let b = base.bytes.as_slice();
        let found = split_names(p);
        let base_found = split_names(b);
        proof {
            lemma_prefix_by_names(base@, self@);
            lemma_names_from(self@, body_start(self@));
        }
        let base_lead = has_root(b) || starts_with_dot(b);
        if base_found.len() == 0 && !base_lead {
            let length: usize = if found.len() == 0 {
                body_offset(p)
            } else {
                assert(names(self@).last() == ranges(found@).last());
                found[found.len() - 1].1
            };
            let rest = UnixPath { bytes: slice_to_vec(slice_subrange(p, 0, length)) };
            assert(components(base@).len() == 0);
            assert(components(base@) =~= components(self@).take(0));
            assert(rest@ =~= self@.take(trimmed_len(self@)));
            return Some(rest);
        }
        assert(components(base@).len() > 0);
        if has_root(p) != has_root(b) || starts_with_dot(p) != starts_with_dot(b) {
            assert(lead(base@) != lead(self@)) by {
                if lead(base@) == lead(self@) {
                    assert(lead(base@).len() == lead(self@).len());
                    if lead(base@).len() == 1 {
                        assert(lead(base@)[0] == lead(self@)[0]);
                    }
                }
            }
            return None;
        }
        assert(lead(base@) == lead(self@));
        if base_found.len() > found.len() || !names_agree(
            b,
            &base_found,
            p,
            &found,
            base_found.len(),
        ) {
            return None;
        }
        if base_found.len() == found.len() {
            let rest = UnixPath { bytes: Vec::new() };
            assert(rest@ =~= seq![]);
            return Some(rest);
        }
        let start: usize = found[base_found.len()].0;
        let end: usize = found[found.len() - 1].1;
        assert(names(self@)[base_found@.len() as int] == ranges(found@)[base_found@.len() as int]);
        assert(names(self@).last() == ranges(found@).last());
        Some(UnixPath { bytes: slice_to_vec(slice_subrange(p, start, end)) })
    }

    /// Whether both paths have the same components.
    pub fn same_path(&self, other: &UnixPath) -> (r: bool)
        ensures
            r == same_path(self@, other@),
    {
        let p = self.bytes.as_slice();
        let q = other.bytes.as_slice();
        let p_found = split_names(p);
        let q_found = split_names(q);
        proof {
            lemma_same_path_by_names(self@, other@);
        }
        has_root(p) == has_root(q) && starts_with_dot(p) == starts_with_dot(q) && p_found.len()
            == q_found.len() && names_agree(p, &p_found, q, &q_found, p_found.len())
    }
}

/// Paths are the same exactly when their roots or leading `.` and their names are.
proof fn lemma_same_path_by_names(p: Seq<u8>, q: Seq<u8>)
    ensures
        same_path(p, q) <==> {
            &&& is_absolute(p) == is_absolute(q)
            &&& has_leading_dot(p) == has_leading_dot(q)
            &&& names(p).len() == names(q).len()
            &&& forall|k: int|
                0 <= k < names(p).len() ==> #[trigger] name_at(p, names(p)[k]) == name_at(
                    q,
                    names(q)[k],
                )
        },
{
    lemma_prefix_by_names(p, q);
    let pc = components(p);
    let qc = components(q);
    assert(lead(p) == lead(q) <==> is_absolute(p) == is_absolute(q) && has_leading_dot(p)
        == has_leading_dot(q)) by {
        if lead(p) == lead(q) && lead(p).len() == 1 {
            assert(lead(p)[0] == lead(q)[0]);
        }
    }
    if pc == qc {
        assert(pc =~= qc.take(pc.len() as int));
        assert(pc.is_prefix_of(qc));
        if lead(p) != lead(q) {
            assert(pc.len() == 0);
            assert(lead(p) =~= lead(q));
        }
    } else if lead(p) == lead(q) && names(p).len() == names(q).len() && pc.is_prefix_of(qc) {
        assert(qc.take(pc.len() as int) =~= qc);
    }
}

/// The ranges moved `by` bytes to the right.
spec fn shifted(n: Seq<(int, int)>, by: int) -> Seq<(int, int)> {
    Seq::new(n.len(), |k: int| (n[k].0 + by, n[k].1 + by))
}

proof fn lemma_name_end_take(p: Seq<u8>, k: int, i: int)
    requires
        0 <= i <= k <= p.len(),
    ensures
        name_end(p.take(k), i) == if name_end(p, i) < k {
            name_end(p, i)
        } else {
            k
        },
    decreases k - i,
{
    lemma_name_end(p, i);
    if i < k && p[i] != SEPARATOR {
        lemma_name_end_take(p, k, i + 1);
    }
}

/// Cutting a path off behind a name leaves the names up to that one.
proof fn lemma_names_take(p: Seq<u8>, i: int, m: int)
    requires
        0 <= i,
        0 <= m < names_from(p, i).len(),
    ensures
        names_from(p.take(names_from(p, i)[m].1), i) == names_from(p, i).take(m + 1),
    decreases p.len() + 1 - i,
{
    lemma_names_from(p, i);
    let all = names_from(p, i);
    let k = all[m].1;
    let q = p.take(k);
    let j = name_end(p, i);
    let rest = names_from(p, j + 1);
    lemma_name_end(p, i);
    assert(all[m].0 >= i);
    lemma_name_end_take(p, k, i);
    if counts(p, i, j) {
        if m == 0 {
            assert(names_from(q, j + 1) =~= seq![]);
            assert(names_from(q, i) =~= all.take(1));
        } else {
            lemma_names_from(p, j + 1);
            assert(all[m] == rest[m - 1]);
            lemma_names_take(p, j + 1, m - 1);
            assert(names_from(q, i) =~= all.take(m + 1));
        }
    } else {
        lemma_names_from(p, j + 1);
        assert(rest[m].0 >= j + 1);
        lemma_names_take(p, j + 1, m);
        assert(names_from(q, i) =~= all.take(m + 1));
    }
}

/// Reading on from the beginning of a name gives that name and the ones behind it.
proof fn lemma_names_skip(p: Seq<u8>, i: int, m: int)
    requires
        0 <= i,
        0 <= m < names_from(p, i).len(),
    ensures
        names_from(p, names_from(p, i)[m].0) == names_from(p, i).skip(m),
    decreases p.len() + 1 - i,
{
    lemma_name_end(p, i);
    let all = names_from(p, i);
    let j = name_end(p, i);
    let rest = names_from(p, j + 1);
    if counts(p, i, j) {
        if m == 0 {
            assert(all =~= all.skip(0));
        } else {
            assert(all[m] == rest[m - 1]);
            lemma_names_skip(p, j + 1, m - 1);
            assert(all.skip(m) =~= rest.skip(m - 1));
        }
    } else {
        lemma_names_skip(p, j + 1, m);
    }
}

proof fn lemma_name_end_suffix(x: Seq<u8>, b: Seq<u8>, i: int)
    requires
        0 <= i <= b.len(),
    ensures
        name_end(x + b, x.len() + i) == x.len() + name_end(b, i),
    decreases b.len() - i,
{
    if i < b.len() && b[i] != SEPARATOR {
        lemma_name_end_suffix(x, b, i + 1);
    }
}

/// The names within the tail of a path are those of the tail on its own.
proof fn lemma_names_suffix(x: Seq<u8>, b: Seq<u8>, i: int)
    requires
        0 <= i,
    ensures
        names_from(x + b, x.len() + i) == shifted(names_from(b, i), x.len() as int),
    decreases b.len() + 1 - i,
{
    if i < b.len() {
        lemma_name_end(b, i);
        lemma_name_end_suffix(x, b, i);
        lemma_names_suffix(x, b, name_end(b, i) + 1);
        assert(names_from(x + b, x.len() + i) =~= shifted(names_from(b, i), x.len() as int));
    } else {
        assert(names_from(x + b, x.len() + i) =~= shifted(names_from(b, i), x.len() as int));
    }
}

proof fn lemma_name_end_before(x: Seq<u8>, t: Seq<u8>, i: int)
    requires
        t.len() > 0,
        t[0] == SEPARATOR,
        0 <= i <= x.len(),
    ensures
        name_end(x + t, i) == name_end(x, i),
    decreases x.len() - i,
{
    if i < x.len() && x[i] != SEPARATOR {
        lemma_name_end_before(x, t, i + 1);
    }
}

/// A separator parts the names before it from those behind it.
proof fn lemma_names_split(x: Seq<u8>, t: Seq<u8>, i: int)
    requires
        t.len() > 0,
        t[0] == SEPARATOR,
        0 <= i <= x.len() + 1,
    ensures
        names_from(x + t, i) == names_from(x, i) + names_from(x + t, x.len() as int + 1),
    decreases x.len() + 1 - i,
{
    let p = x + t;
    let tail = names_from(p, x.len() as int + 1);
    if i <= x.len() {
        lemma_name_end_before(x, t, i);
        lemma_name_end(x, i);
        lemma_names_split(x, t, name_end(x, i) + 1);
        assert(names_from(p, i) =~= names_from(x, i) + tail);
    } else {
        assert(names_from(x, i) =~= seq![]);
        assert(names_from(p, i) =~= names_from(x, i) + tail);
    }
}

/// The parent of a path has its components without the last one.
pub proof fn lemma_parent_components(p: Seq<u8>)
    ensures
        parent(p) matches Some(q) ==> components(p).len() > 0 && components(q) == components(
            p,
        ).drop_last(),
{
    lemma_parent_shorter(p);
    lemma_names_from(p, body_start(p));
    let n = names(p);
    let pc = components(p);
    if let Some(k) = parent_len(p) {
        let q = p.take(k);
        if n.len() >= 2 {
            let m = n.len() - 2;
            assert(body_start(p) <= n[m].0 < n[m].1 == k);
            lemma_names_take(p, body_start(p), m);
            assert(k >= 1);
            if p[0] == DOT && k == 1 && body_start(p) == 0 {
                assert(n[m].0 == 0 && n[m].1 == 1);
                lemma_name_at_counts(p, 0, m);
            }
            assert(lead(q) == lead(p));
            assert(names(q) == n.take(m + 1));
            assert forall|l: int| 0 <= l < names(q).len() implies name_at(q, names(q)[l])
                == name_at(p, n[l]) by {
                assert(n[l].1 <= k);
                assert(q.subrange(n[l].0, n[l].1) =~= p.subrange(n[l].0, n[l].1));
            }
            assert(components(q) =~= pc.drop_last());
        } else if n.len() == 1 {
            assert(lead(q) =~= lead(p));
            assert(names(q) =~= seq![]);
            assert(components(q) =~= pc.drop_last());
        } else {
            assert(components(q) =~= pc.drop_last());
        }
    }
}

/// Every range of names counts as a name.
proof fn lemma_name_at_counts(p: Seq<u8>, i: int, m: int)
    requires
        0 <= i,
        0 <= m < names_from(p, i).len(),
    ensures
        counts(p, names_from(p, i)[m].0, names_from(p, i)[m].1),
        forall|k: int|
            names_from(p, i)[m].0 <= k < names_from(p, i)[m].1 ==> p[k] != SEPARATOR,
    decreases p.len() + 1 - i,
{
    lemma_name_end(p, i);
    let j = name_end(p, i);
    let rest = names_from(p, j + 1);
    if counts(p, i, j) {
        if m > 0 {
            assert(names_from(p, i)[m] == rest[m - 1]);
            lemma_name_at_counts(p, j + 1, m - 1);
        }
    } else {
        lemma_name_at_counts(p, j + 1, m);
    }
}

/// Joining a relative path appends its components.
pub proof fn lemma_join_components(base: Seq<u8>, tail: Seq<u8>)
    requires
        !is_absolute(tail),
        !has_leading_dot(tail),
    ensures
        components(join(base, tail)) == components(base) + components(tail),
{
    let p = join(base, tail);
    if base.len() == 0 {
        assert(p =~= tail);
        assert(components(base) =~= seq![]);
        assert(components(p) =~= components(base) + components(tail));
    } else {
        let x = if base.last() == SEPARATOR {
            base.drop_last()
        } else {
            base
        };
        let sep = seq![SEPARATOR];
        assert(p =~= x + (sep + tail));
        let start = body_start(base);
        assert(lead(p) == lead(base));
        lemma_names_split(x, sep + tail, start);
        assert((x + sep) + tail =~= p);
        lemma_names_suffix(x + sep, tail, 0);
        if base.last() == SEPARATOR {
            assert(base =~= x + sep);
            lemma_names_split(x, sep, start);
            assert(names_from(base, base.len() as int) =~= seq![]);
            assert(names(base) =~= names_from(x, start));
        }
        let by = x.len() as int + 1;
        assert(names(p) =~= names(base) + shifted(names(tail), by));
        lemma_names_from(base, start);
        lemma_names_from(tail, 0);
        assert forall|k: int| 0 <= k < names(p).len() implies name_at(p, names(p)[k]) == if k
            < names(base).len() {
            name_at(base, names(base)[k])
        } else {
            name_at(tail, names(tail)[k - names(base).len()])
        } by {
            if k < names(base).len() {
                let r = names(base)[k];
                assert(names(p)[k] == r);
                assert(p.subrange(r.0, r.1) =~= base.subrange(r.0, r.1));
            } else {
                let r = names(tail)[k - names(base).len()];
                assert(names(p)[k] == (r.0 + by, r.1 + by));
                assert(p.subrange(r.0 + by, r.1 + by) =~= tail.subrange(r.0, r.1));
            }
        }
        assert(components(p) =~= components(base) + components(tail));
    }
}

/// A single name is the only component of the path that it makes.
pub proof fn lemma_single_name(name: Seq<u8>)
    requires
        name.len() > 0,
        name != seq![DOT],
        forall|i: int| 0 <= i < name.len() ==> name[i] != SEPARATOR,
    ensures
        !is_absolute(name),
        !has_leading_dot(name),
        components(name) == seq![Component::Name(name)],
{
    if name.len() == 1 && name[0] == DOT {
        assert(name =~= seq![DOT]);
    }
    lemma_name_end(name, 0);
    assert(names_from(name, name.len() as int + 1) =~= seq![]);
    assert(names(name) =~= seq![(0int, name.len() as int)]);
    assert(name.subrange(0, name.len() as int) =~= name);
    assert(components(name) =~= seq![Component::Name(name)]);
}

/// The file name is the last component.
pub proof fn lemma_file_name_component(p: Seq<u8>)
    ensures
        file_name(p) matches Some(name) ==> components(p).len() > 0 && components(p).last()
            == Component::Name(name),
{
}

/// Paths with the same name as last component have the same file name.
pub proof fn lemma_same_last_name(p: Seq<u8>, q: Seq<u8>)
    requires
        components(p).len() > 0,
        components(q).len() > 0,
        components(p).last() is Name,
        components(p).last() == components(q).last(),
    ensures
        file_name(p) == file_name(q),
{
    if names(p).len() == 0 {
        assert(components(p).last() == lead(p).last());
    }
    if names(q).len() == 0 {
        assert(components(q).last() == lead(q).last());
    }
    assert(components(p).last() == name_at(p, names(p).last()));
    assert(components(q).last() == name_at(q, names(q).last()));
}

/// The parent of an absolute path is absolute.
pub proof fn lemma_parent_absolute(p: Seq<u8>)
    requires
        is_absolute(p),
    ensures
        parent(p) matches Some(q) ==> is_absolute(q),
{
    lemma_names_from(p, body_start(p));
    let n = names(p);
    if n.len() >= 2 {
        assert(body_start(p) <= n[n.len() - 2].0 < n[n.len() - 2].1 <= p.len());
    }
}

/// The ancestors of an absolute path are absolute.
pub proof fn lemma_ancestor_absolute(p: Seq<u8>, k: nat)
    requires
        is_absolute(p),
    ensures
        ancestor(p, k) matches Some(q) ==> is_absolute(q),
    decreases k,
{
    if k > 0 {
        if let Some(up) = parent(p) {
            lemma_parent_absolute(p);
            lemma_ancestor_absolute(up, (k - 1) as nat);
        }
    }
}

/// Only the empty path has no components.
pub proof fn lemma_no_components(p: Seq<u8>)
    requires
        components(p).len() == 0,
    ensures
        p == Seq::<u8>::empty(),
{
    if p.len() > 0 {
        lemma_name_end(p, 0);
        assert(name_end(p, 0) > 0) by {
            lemma_name_end(p, 1);
        }
        assert(counts(p, 0, name_end(p, 0)));
        assert(names(p)[0] == (0int, name_end(p, 0)));
    }
}

/// A path whose last component is a name has a parent.
pub proof fn lemma_last_name_has_parent(p: Seq<u8>)
    requires
        components(p).len() > 0,
        components(p).last() is Name,
    ensures
        parent(p) is Some,
{
    if names(p).len() == 0 {
        assert(components(p).last() == lead(p).last());
    }
}

/// An ancestor has the first components of the path.
pub proof fn lemma_ancestor_components(p: Seq<u8>, k: nat)
    ensures
        ancestor(p, k) matches Some(q) ==> components(q).is_prefix_of(components(p)),
    decreases k,
{
    if k == 0 {
        assert(components(p) =~= components(p).take(components(p).len() as int));
    } else if let Some(up) = parent(p) {
        lemma_parent_components(p);
        lemma_ancestor_components(up, (k - 1) as nat);
        if let Some(q) = ancestor(p, k) {
            let n = components(q).len() as int;
            assert(components(up).take(n) =~= components(p).take(n));
        }
    }
}

/// Cutting off what follows the last name keeps the root and a leading `.`.
pub proof fn lemma_trimmed_lead(p: Seq<u8>)
    ensures
        is_absolute(p.take(trimmed_len(p))) == is_absolute(p),
        has_leading_dot(p.take(trimmed_len(p))) == has_leading_dot(p),
{
    lemma_trimmed_components(p);
    lemma_same_path_by_names(p, p.take(trimmed_len(p)));
}

/// Cutting off what follows the last name keeps the components.
proof fn lemma_trimmed_components(p: Seq<u8>)
    ensures
        components(p.take(trimmed_len(p))) == components(p),
{
    let n = names(p);
    let q = p.take(trimmed_len(p));
    lemma_names_from(p, body_start(p));
    if n.len() == 0 {
        assert(lead(q) =~= lead(p));
        assert(names(q) =~= seq![]);
    } else {
        let last = n.len() - 1;
        lemma_names_take(p, body_start(p), last);
        assert(n.take(last + 1) =~= n);
        assert(body_start(p) <= n[last].0 < n[last].1 <= p.len());
        if p[0] == DOT && body_start(p) == 0 && q.len() == 1 {
            lemma_name_at_counts(p, body_start(p), last);
        }
        assert(lead(q) == lead(p));
        assert forall|k: int| 0 <= k < n.len() implies name_at(q, names(q)[k]) == name_at(
            p,
            n[k],
        ) by {
            if k < last {
                assert(n[k].1 < n[last].0);
            }
            assert(q.subrange(n[k].0, n[k].1) =~= p.subrange(n[k].0, n[k].1));
        }
    }
    assert(components(q) =~= components(p));
}

/// What is left of a path behind a prefix has the remaining components. It is a relative path,
/// unless nothing was taken away.
pub proof fn lemma_strip_prefix_components(p: Seq<u8>, base: Seq<u8>)
    ensures
        strip_prefix(p, base) matches Some(rest) ==> components(p) == components(base)
            + components(rest),
        components(base).len() > 0 ==> (strip_prefix(p, base) matches Some(rest) ==> !is_absolute(
            rest,
        ) && !has_leading_dot(rest)),
{
    lemma_names_from(p, body_start(p));
    let pc = components(p);
    let bc = components(base);
    if bc.len() == 0 {
        lemma_trimmed_components(p);
        assert(bc + pc =~= pc);
    } else if bc.is_prefix_of(pc) {
        let rest = strip_prefix(p, base)->0;
        let n = names(p);
        let first = bc.len() - lead(p).len();
        if first >= n.len() {
            assert(rest =~= seq![]);
            assert(components(rest) =~= seq![]);
            assert(pc =~= bc + components(rest));
        } else {
            let from = n[first].0;
            let to = n.last().1;
            let last = n.len() - 1;
            assert(n[first].0 < n[first].1 <= to) by {
                if first < last {
                    assert(n[first].1 < n[last].0);
                }
            }
            lemma_name_at_counts(p, body_start(p), first);
            assert(rest[0] == p[from]);
            if rest.len() > 1 && rest[1] == SEPARATOR {
                assert(rest[1] == p[from + 1]);
            }
            let x = p.take(from);
            let q = p.take(to);
            lemma_names_take(p, body_start(p), last);
            assert(n.take(last + 1) =~= n);
            assert(q =~= x + rest);
            lemma_names_skip(q, body_start(p), first);
            lemma_names_suffix(x, rest, 0);
            assert(n.skip(first) == shifted(names(rest), from));
            lemma_names_from(rest, 0);
            assert forall|k: int| 0 <= k < names(rest).len() implies name_at(rest, names(rest)[k])
                == name_at(p, n[first + k]) by {
                let r = names(rest)[k];
                assert(n.skip(first)[k] == (r.0 + from, r.1 + from));
                assert(rest.subrange(r.0, r.1) =~= p.subrange(r.0 + from, r.1 + from));
            }
            assert(names(rest).len() == n.skip(first).len());
            assert(bc =~= pc.take(bc.len() as int));
            assert forall|i: int| bc.len() <= i < pc.len() implies pc[i] == components(rest)[i
                - bc.len()] by {
                assert(pc[i] == name_at(p, n[i - lead(p).len()]));
                assert(components(rest)[i - bc.len()] == name_at(
                    rest,
                    names(rest)[i - bc.len()],
                ));
            }
            assert(pc =~= bc + components(rest));
        }
    }
}

/// Components are what stands between separators: the part behind the last separator adds a name,
/// unless it is empty or `.`. In front of the first separator, nothing is the root, and `.` counts.
/// By this every path, read from its end, has its components.
pub proof fn lemma_components_by_last_separator(front: Seq<u8>, part: Seq<u8>)
    requires
        forall|i: int| 0 <= i < part.len() ==> part[i] != 0x2f,
    ensures
        part.len() == 0 ==> components(part) == Seq::<Component>::empty(),
        part == seq![0x2eu8] ==> components(part) == seq![Component::CurDir],
        part.len() > 0 && part != seq![0x2eu8] ==> components(part) == seq![Component::Name(part)],
        part.len() == 0 || part == seq![0x2eu8] ==> components(front + seq![0x2fu8] + part) == if front.len()
            == 0 {
            seq![Component::Root]
        } else {
            components(front)
        },
        part.len() > 0 && part != seq![0x2eu8] ==> components(front + seq![0x2fu8] + part) == (
        if front.len() == 0 {
            seq![Component::Root]
        } else {
            components(front)
        }).push(Component::Name(part)),
{
    let sep = seq![SEPARATOR];
    let p = front + sep + part;
    assert(part.len() == 1 && part[0] == DOT ==> part =~= seq![DOT]);
    lemma_name_end(part, 0);
    let own: Seq<(int, int)> = if part.len() > 0 && part != seq![DOT] {
        seq![(0int, part.len() as int)]
    } else {
        seq![]
    };
    if part.len() > 0 {
        assert(name_end(part, 0) == part.len());
        assert(names_from(part, part.len() as int + 1) =~= seq![]);
    }
    assert(names_from(part, 0) =~= own);
    assert(part.subrange(0, part.len() as int) =~= part);
    assert(names_from(part, 1) =~= seq![] || part.len() > 1);
    if part.len() == 0 {
        assert(components(part) =~= seq![]);
    } else if part == seq![DOT] {
        assert(components(part) =~= seq![Component::CurDir]);
    } else {
        lemma_single_name(part);
    }
    assert(p =~= front + (sep + part));
    let start = body_start(p);
    lemma_names_suffix(front + sep, part, 0);
    assert((front + sep) + part =~= p);
    let tail = names_from(p, front.len() as int + 1);
    assert(tail == shifted(own, front.len() as int + 1));
    lemma_names_split(front, sep + part, start);
    if front.len() == 0 {
        assert(names_from(front, 1) =~= seq![]);
        assert(names(p) =~= tail);
        assert(lead(p) =~= seq![Component::Root]);
    } else {
        assert(start == body_start(front));
        assert(names(p) == names(front) + tail);
        assert(lead(p) == lead(front));
    }
    let head = if front.len() == 0 {
        seq![Component::Root]
    } else {
        components(front)
    };
    lemma_names_from(front, body_start(front));
    let before: nat = if front.len() == 0 {
        0
    } else {
        names(front).len()
    };
    assert forall|k: int| 0 <= k < before implies name_at(p, names(p)[k]) == name_at(
        front,
        names(front)[k],
    ) by {
        let r = names(front)[k];
        assert(names(p)[k] == r);
        assert(p.subrange(r.0, r.1) =~= front.subrange(r.0, r.1));
    }
    if own.len() > 0 {
        let r = names(p)[before as int];
        assert(r == (front.len() as int + 1, p.len() as int));
        assert(p.subrange(r.0, r.1) =~= part);
        assert(components(p) =~= head.push(Component::Name(part)));
    } else {
        assert(components(p) =~= head);
    }
}

/// The path stops where its last component does: nothing follows it.
pub open spec fn stops_at_last(p: Seq<u8>) -> bool {
    let c = components(p);
    if c.len() == 0 {
        p.len() == 0
    } else {
        match c.last() {
            Component::Root => p == seq![0x2fu8],
            Component::CurDir => p == seq![0x2eu8],
            Component::Name(name) => name.is_suffix_of(p),
        }
    }
}

/// A path has a parent unless it is empty or a mere root. The parent is the beginning of the path,
/// up to the end of the component before the last.
pub proof fn lemma_parent(p: Seq<u8>)
    ensures
        parent(p) is None <==> components(p).len() == 0 || components(p).last() is Root,
        parent(p) matches Some(q) ==> {
            &&& q.is_prefix_of(p)
            &&& components(q) == components(p).drop_last()
            &&& stops_at_last(q)
        },
{
    lemma_parent_components(p);
    lemma_parent_shorter(p);
    lemma_names_from(p, body_start(p));
    let n = names(p);
    if n.len() > 0 {
        assert(components(p).last() == name_at(p, n.last()));
    } else {
        assert(components(p) =~= lead(p));
    }
    if let Some(q) = parent(p) {
        if n.len() >= 2 {
            let m = n.len() - 2;
            let r = n[m];
            assert(components(q).last() == components(p)[components(p).len() - 2]);
            assert(components(p)[components(p).len() - 2] == name_at(p, r));
            assert(p.subrange(r.0, r.1) =~= q.skip(q.len() - (r.1 - r.0)));
        } else if n.len() == 1 {
            assert(components(q) =~= lead(p));
            assert(is_absolute(p) ==> q =~= seq![SEPARATOR]);
            assert(has_leading_dot(p) ==> q =~= seq![DOT]);
        } else {
            assert(components(q) =~= seq![]);
        }
    }
}

/// Going up `k` times takes away the last `k` components.
pub proof fn lemma_ancestor(p: Seq<u8>, k: nat)
    ensures
        ancestor(p, k) matches Some(q) ==> {
            &&& k <= components(p).len()
            &&& components(q) == components(p).take(components(p).len() - k)
            &&& q.is_prefix_of(p)
        },
        ancestor(p, k) is None <==> k > components(p).len() || (k == components(p).len() && k > 0
            && components(p)[0] is Root),
    decreases k,
{
    lemma_parent(p);
    if k == 0 {
        assert(components(p) =~= components(p).take(components(p).len() as int));
        assert(p =~= p.take(p.len() as int));
    } else if let Some(up) = parent(p) {
        lemma_ancestor(up, (k - 1) as nat);
        if let Some(q) = ancestor(p, k) {
            assert(components(q) =~= components(p).take(components(p).len() - k));
            assert(q =~= p.take(q.len() as int));
        }
    } else if components(p).len() > 0 {
        lemma_root_comes_first(p);
    }
}

/// Only the first component is a root or a leading `.`; all others are names.
pub proof fn lemma_root_comes_first(p: Seq<u8>)
    ensures
        forall|i: int| 0 < i < components(p).len() ==> (#[trigger] components(p)[i]) is Name,
{
}

/// The file name is the last component, where that is a name other than `..`.
pub proof fn lemma_file_name(p: Seq<u8>, name: Seq<u8>)
    ensures
        file_name(p) == Some(name) <==> components(p).len() > 0 && components(p).last()
            == Component::Name(name) && name != seq![0x2eu8, 0x2eu8],
{
    let n = names(p);
    if n.len() > 0 {
        assert(components(p).last() == name_at(p, n.last()));
    } else {
        assert(components(p) =~= lead(p));
    }
}

/// Joined paths stand one behind the other with a separator between them. An absolute path is not
/// changed by joining it.
pub proof fn lemma_join(base: Seq<u8>, tail: Seq<u8>)
    ensures
        tail.len() > 0 && tail[0] == 0x2f ==> join(base, tail) == tail,
        tail.len() == 0 || tail[0] != 0x2f ==> {
            let j = join(base, tail);
            let parted = base.len() == 0 || base.last() == 0x2f;
            &&& base.is_prefix_of(j)
            &&& tail.is_suffix_of(j)
            &&& parted ==> j.len() == base.len() + tail.len()
            &&& !parted ==> j.len() == base.len() + 1 + tail.len() && j[base.len() as int] == 0x2f
        },
{
    let j = join(base, tail);
    if !is_absolute(tail) {
        assert(j.take(base.len() as int) =~= base);
        assert(j.skip(j.len() - tail.len()) =~= tail);
    }
}

/// Where a name begins, the path begins or a separator ends.
proof fn lemma_name_follows_separator(p: Seq<u8>, i: int, m: int)
    requires
        0 <= i,
        0 <= m < names_from(p, i).len(),
    ensures
        names_from(p, i)[m].0 == i || p[names_from(p, i)[m].0 - 1] == SEPARATOR,
    decreases p.len() + 1 - i,
{
    lemma_name_end(p, i);
    let j = name_end(p, i);
    let rest = names_from(p, j + 1);
    if counts(p, i, j) {
        if m > 0 {
            assert(names_from(p, i)[m] == rest[m - 1]);
            lemma_name_follows_separator(p, j + 1, m - 1);
            lemma_names_from(p, j + 1);
        }
    } else {
        lemma_name_follows_separator(p, j + 1, m);
        lemma_names_from(p, j + 1);
    }
}

/// A path up to the beginning of a name has the components before that name.
proof fn lemma_components_before(p: Seq<u8>, m: int)
    requires
        0 <= m < names(p).len(),
    ensures
        components(p.take(names(p)[m].0)) == components(p).take(lead(p).len() + m),
{
    let start = body_start(p);
    let n = names(p);
    lemma_names_from(p, start);
    let from = n[m].0;
    let q = p.take(from);
    lemma_name_follows_separator(p, start, m);
    if m > 0 {
        assert(n[0].1 < n[m].0);
    }
    if from == 0 {
        assert(m == 0);
        assert(components(q) =~= seq![]);
        assert(lead(p) =~= seq![]);
        assert(components(p).take(0) =~= seq![]);
    } else {
        assert(p[from - 1] == SEPARATOR) by {
            if from == start {
                if has_leading_dot(p) {
                    assert(p[1] == SEPARATOR);
                    lemma_name_at_counts(p, start, m);
                }
            }
        }
        let x = p.take(from - 1);
        let t = p.skip(from - 1);
        assert(p =~= x + t);
        lemma_names_skip(p, start, m);
        if x.len() == 0 {
            assert(is_absolute(p));
            assert(m == 0);
            assert(q =~= seq![SEPARATOR]);
            assert(names_from(q, 1) =~= seq![]);
            assert(lead(q) =~= lead(p));
            assert(components(q) =~= components(p).take(1));
        } else {
            lemma_names_split(x, t, start);
            assert(names(p) == names_from(x, start) + n.skip(m));
            assert(names_from(x, start) =~= n.take(m));
            assert(q =~= x + seq![SEPARATOR]);
            assert(lead(q) == lead(p));
            lemma_names_split(x, seq![SEPARATOR], start);
            assert(names_from(q, from) =~= seq![]);
            assert(names(q) =~= n.take(m));
            assert forall|k: int| 0 <= k < m implies name_at(q, names(q)[k]) == name_at(p, n[k]) by {
                assert(n[k].1 < n[m].0);
                assert(q.subrange(n[k].0, n[k].1) =~= p.subrange(n[k].0, n[k].1));
            }
            assert(components(q) =~= components(p).take(lead(p).len() + m));
        }
    }
}

/// `rest` is the part of `p` that begins at `at`, where the components of `base` are through, and
/// stops with the last component.
pub open spec fn follows_at(p: Seq<u8>, base: Seq<u8>, rest: Seq<u8>, at: int) -> bool {
    &&& 0 <= at
    &&& at + rest.len() <= p.len()
    &&& p.subrange(at, at + rest.len()) == rest
    &&& components(rest).len() > 0 ==> components(p.take(at)) == components(base)
}

/// A prefix can be taken from a path exactly where the path begins with its components. What is
/// left are the other components, as they stand in the path.
pub proof fn lemma_strip_prefix(p: Seq<u8>, base: Seq<u8>)
    ensures
        strip_prefix(p, base) is Some <==> components(base).is_prefix_of(components(p)),
        strip_prefix(p, base) matches Some(rest) ==> {
            &&& components(p) == components(base) + components(rest)
            &&& stops_at_last(rest)
            &&& exists|at: int| follows_at(p, base, rest, at)
            &&& components(base).len() > 0 && components(rest).len() > 0 ==> components(rest)[0] is Name
        },
{
    lemma_strip_prefix_components(p, base);
    lemma_names_from(p, body_start(p));
    if let Some(rest) = strip_prefix(p, base) {
        let n = names(p);
        let pc = components(p);
        let bc = components(base);
        let rc = components(rest);
        if bc.len() == 0 {
            assert(p.take(0) =~= seq![]);
            assert(components(p.take(0)) =~= seq![]);
            assert(p.subrange(0, rest.len() as int) =~= rest);
            assert(bc =~= seq![]);
            assert(follows_at(p, base, rest, 0));
            assert(rc =~= pc);
            if n.len() > 0 {
                assert(pc.last() == name_at(p, n.last()));
                let name = p.subrange(n.last().0, n.last().1);
                assert(rest.skip(rest.len() - name.len()) =~= name);
            } else {
                assert(pc =~= lead(p));
                assert(is_absolute(p) ==> rest =~= seq![SEPARATOR]);
                assert(has_leading_dot(p) ==> rest =~= seq![DOT]);
            }
        } else {
            let first = bc.len() - lead(p).len();
            if first >= n.len() {
                assert(p.subrange(0, 0) =~= rest);
                assert(rc =~= seq![]);
                assert(follows_at(p, base, rest, 0));
            } else {
                assert(first >= 0);
                let at = n[first].0;
                if first < n.len() - 1 {
                    assert(n[first].1 < n[n.len() - 1].0);
                }
                lemma_components_before(p, first);
                assert(pc.take(lead(p).len() + first) =~= bc);
                assert(p.subrange(at, at + rest.len()) =~= rest);
                assert(follows_at(p, base, rest, at));
                assert(rc.len() > 0);
                assert(rc.last() == pc.last());
                assert(pc.last() == name_at(p, n.last()));
                let name = p.subrange(n.last().0, n.last().1);
                assert(rest.skip(rest.len() - name.len()) =~= name);
                assert(rc[0] == pc[bc.len() as int]);
                lemma_root_comes_first(p);
            }
        }
    }
}

/// Paths are the same exactly when they have the same components, whatever stands between them.
pub proof fn lemma_same_path(p: Seq<u8>, q: Seq<u8>)
    ensures
        same_path(p, q) <==> components(p) == components(q),
        is_absolute(p) <==> components(p).len() > 0 && components(p)[0] is Root,
        is_absolute(p) <==> p.len() > 0 && p[0] == 0x2f,
{
    if lead(p).len() == 1 {
        assert(components(p)[0] == lead(p)[0]);
    } else if components(p).len() > 0 {
        assert(components(p)[0] == name_at(p, names(p)[0]));
    }
}

} // verus!
