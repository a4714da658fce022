use std::cmp::Ordering;
use vstd::multiset::Multiset;
use vstd::prelude::*;

verus! {

/// The scheme that marks a local file in a renderer source string.
pub open spec fn url_scheme() -> Seq<char> {
    seq!['f', 'i', 'l', 'e', ':', '/', '/']
}

/// The source string under which the file at `p` is displayed.
pub open spec fn url_of(p: Seq<char>) -> Seq<char> {
    url_scheme() + p
}

/// Whether `u` names a local file, that is, begins with the file scheme.
pub open spec fn has_file_scheme(u: Seq<char>) -> bool {
    u.len() >= url_scheme().len() && u.subrange(0, url_scheme().len() as int) == url_scheme()
}

/// The source string of a path names a local file, and taking the scheme off gives the path
/// back: `to_path` undoes `to_url`.
pub proof fn lemma_url_round_trip(p: Seq<char>)
    ensures
        has_file_scheme(url_of(p)),
        url_of(p).skip(url_scheme().len() as int) == p,
{
    assert(url_of(p).subrange(0, url_scheme().len() as int) =~= url_scheme());
    assert(url_of(p).skip(url_scheme().len() as int) =~= p);
}

/// Turns a path into the `file://` source string that the renderer loads.
pub fn to_url(path: &str) -> (r: String)
    ensures
        r@ == url_of(path@),
{
    let mut r = String::from_str("file://");
    proof {
        reveal_strlit("file://");
    }
    r.append(path);
    r
}

/// Recovers the path from a `file://` source string; `None` for any other string.
pub fn to_path(url: &str) -> (r: Option<String>)
    ensures
        r is Some <==> has_file_scheme(url@),
        r is Some ==> r->0@ == url@.skip(url_scheme().len() as int),
{
    let scheme = "file://";
    proof {
        reveal_strlit("file://");
    }
    let n = url.unicode_len();
    let k = scheme.unicode_len();
    if n < k {
        return None;
    }
    let mut i: usize = 0;
    while i < k
        invariant
            k == url_scheme().len(),
            scheme@ == url_scheme(),
            n == url@.len(),
            k <= n,
            i <= k,
            forall|j: int| 0 <= j < i ==> url@[j] == url_scheme()[j],
        decreases k - i,
    {
        if url.get_char(i) != scheme.get_char(i) {
            assert(url@.subrange(0, k as int)[i as int] != url_scheme()[i as int]);
            return None;
        }
        i = i + 1;
    }
    assert(url@.subrange(0, k as int) =~= url_scheme());
    let rest = url.substring_char(k, n);
    assert(rest@ =~= url@.skip(k as int));
    Some(String::from_str(rest))
}

/// A path held as its string rendering; the order between paths is the natural one.
#[derive(Debug)]
pub struct PathSortable(pub String);

impl View for PathSortable {
    type V = Seq<char>;

    open spec fn view(&self) -> Seq<char> {
        self.0@
    }
}

/// What `natural_sort_rs::natural_cmp` returns for two strings.
pub uninterp spec fn natural_order(a: Seq<char>, b: Seq<char>) -> Ordering;

/// The opposite ordering, as seen from the other side.
pub open spec fn flip(o: Ordering) -> Ordering {
    match o {
        Ordering::Less => Ordering::Greater,
        Ordering::Equal => Ordering::Equal,
        Ordering::Greater => Ordering::Less,
    }
}

/// Whether three verdicts, of `x` against `y`, `y` against `z` and `x` against `z`, fit a
/// total preorder: two steps the same way lead that way, strictly unless both are ties.
pub open spec fn fits_preorder(xy: Ordering, yz: Ordering, xz: Ordering) -> bool {
    &&& (xy != Ordering::Greater && yz != Ordering::Greater) ==> xz == if xy == Ordering::Equal
        && yz == Ordering::Equal {
        Ordering::Equal
    } else {
        Ordering::Less
    }
    &&& (xy != Ordering::Less && yz != Ordering::Less) ==> xz == if xy == Ordering::Equal && yz
        == Ordering::Equal {
        Ordering::Equal
    } else {
        Ordering::Greater
    }
}

/// Whether the natural order, giving `ab` for `a` against `b`, is a total preorder on the
/// three strings `a`, `b`, `c`: each pair reverses when swapped, and each way round fits.
pub open spec fn natural_among(ab: Ordering, a: Seq<char>, b: Seq<char>, c: Seq<char>) -> bool {
    let ba = natural_order(b, a);
    let ac = natural_order(a, c);
    let ca = natural_order(c, a);
    let bc = natural_order(b, c);
    let cb = natural_order(c, b);
    &&& ba == flip(ab)
    &&& ca == flip(ac)
    &&& cb == flip(bc)
    &&& fits_preorder(ab, bc, ac)
    &&& fits_preorder(bc, ca, ba)
    &&& fits_preorder(ca, ab, cb)
}

/// Whether the path order is a total order on `a`, `b`, `c`: each pair reverses when
/// swapped, and each way round fits.
pub open spec fn path_among(a: Seq<char>, b: Seq<char>, c: Seq<char>) -> bool {
    let ab = path_order(a, b);
    let ba = path_order(b, a);
    let ac = path_order(a, c);
    let ca = path_order(c, a);
    let bc = path_order(b, c);
    let cb = path_order(c, b);
    &&& ba == flip(ab)
    &&& ca == flip(ac)
    &&& cb == flip(bc)
    &&& fits_preorder(ab, bc, ac)
    &&& fits_preorder(bc, ca, ba)
    &&& fits_preorder(ca, ab, cb)
}

/// Relies on natural_sort_rs::natural_cmp on `str`: its result depends on the two strings
/// alone; it treats both arguments alike, so swapping them reverses the result; and it
/// compares token by token (a run of digits by value, any other byte by itself), so with
/// any third string it is a total preorder.
#[verifier::external_body]
fn natural_cmp_str(a: &str, b: &str) -> (r: Ordering)
    ensures
        r == natural_order(a@, b@),
        natural_order(b@, a@) == flip(r),
        forall|c: Seq<char>| #[trigger] natural_among(r, a@, b@, c),
{
    natural_sort_rs::natural_cmp::<str, str>(a, b)
}

/// Character order of two strings of one length, looking from position `i` on.
pub open spec fn char_order_from(a: Seq<char>, b: Seq<char>, i: int) -> Ordering
    decreases a.len() - i,
{
    if i < 0 || i >= a.len() || i >= b.len() {
        Ordering::Equal
    } else if (a[i] as int) < (b[i] as int) {
        Ordering::Less
    } else if (a[i] as int) > (b[i] as int) {
        Ordering::Greater
    } else {
        char_order_from(a, b, i + 1)
    }
}

/// The tie-break between strings that the natural order holds equal: the shorter one
/// first, then the first differing character decides.
pub open spec fn tie_order(a: Seq<char>, b: Seq<char>) -> Ordering {
    if a.len() < b.len() {
        Ordering::Less
    } else if a.len() > b.len() {
        Ordering::Greater
    } else {
        char_order_from(a, b, 0)
    }
}

/// A natural-order verdict `o` on `a` and `b`, with `tie_order` deciding where it is
/// `Equal`.
pub open spec fn settle_tie(o: Ordering, a: Seq<char>, b: Seq<char>) -> Ordering {
    match o {
        Ordering::Equal => tie_order(a, b),
        _ => o,
    }
}

/// The order of paths: natural order, with `tie_order` deciding between strings that it
/// holds equal (such as `7` and `07`).
pub open spec fn path_order(a: Seq<char>, b: Seq<char>) -> Ordering {
    settle_tie(natural_order(a, b), a, b)
}

proof fn lemma_char_order_antisymmetric(a: Seq<char>, b: Seq<char>, i: int)
    ensures
        char_order_from(b, a, i) == flip(char_order_from(a, b, i)),
    decreases a.len() - i,
{
    if 0 <= i < a.len() && i < b.len() {
        lemma_char_order_antisymmetric(a, b, i + 1);
    }
}

proof fn lemma_char_order_reflexive(a: Seq<char>, i: int)
    ensures
        char_order_from(a, a, i) == Ordering::Equal,
    decreases a.len() - i,
{
    if 0 <= i < a.len() {
        lemma_char_order_reflexive(a, i + 1);
    }
}

proof fn lemma_char_order_equal(a: Seq<char>, b: Seq<char>, i: int)
    requires
        a.len() == b.len(),
        0 <= i,
        char_order_from(a, b, i) == Ordering::Equal,
    ensures
        forall|j: int| i <= j < a.len() ==> a[j] == b[j],
    decreases a.len() - i,
{
    if i < a.len() {
        lemma_char_order_equal(a, b, i + 1);
        assert((a[i] as int) == (b[i] as int));
    }
}

proof fn lemma_char_order_transitive(a: Seq<char>, b: Seq<char>, c: Seq<char>, i: int)
    requires
        a.len() == b.len() == c.len(),
        char_order_from(a, b, i) == Ordering::Less,
        char_order_from(b, c, i) == Ordering::Less,
    ensures
        char_order_from(a, c, i) == Ordering::Less,
    decreases a.len() - i,
{
    if 0 <= i < a.len() && a[i] == b[i] && b[i] == c[i] {
        lemma_char_order_transitive(a, b, c, i + 1);
    } else if 0 <= i < a.len() && a[i] == b[i] {
        assert(char_order_from(a, c, i) == char_order_from(b, c, i));
    } else if 0 <= i < a.len() && b[i] == c[i] {
        assert(char_order_from(a, c, i) == char_order_from(a, b, i));
    }
}

/// The tie-break is a strict total order: swapping its arguments reverses it, it holds
/// two strings equal only when they are the same, and it is transitive.
pub proof fn lemma_tie_order_strict_total(a: Seq<char>, b: Seq<char>, c: Seq<char>)
    ensures
        tie_order(b, a) == flip(tie_order(a, b)),
        tie_order(a, b) == Ordering::Equal <==> a == b,
        tie_order(a, b) == Ordering::Less && tie_order(b, c) == Ordering::Less ==> tie_order(
            a,
            c,
        ) == Ordering::Less,
{
    lemma_char_order_antisymmetric(a, b, 0);
    if a.len() == b.len() && char_order_from(a, b, 0) == Ordering::Equal {
        lemma_char_order_equal(a, b, 0);
        assert(a =~= b);
    }
    if a == b {
        lemma_char_order_reflexive(a, 0);
    }
    if tie_order(a, b) == Ordering::Less && tie_order(b, c) == Ordering::Less && a.len()
        == b.len() && b.len() == c.len() {
        lemma_char_order_transitive(a, b, c, 0);
    }
}

/// Where the natural order is a total preorder on three strings, the path order is a total
/// order on them.
pub proof fn lemma_path_among(a: Seq<char>, b: Seq<char>, c: Seq<char>)
    requires
        natural_among(natural_order(a, b), a, b, c),
    ensures
        path_among(a, b, c),
{
    lemma_tie_order_strict_total(a, b, c);
    lemma_tie_order_strict_total(a, c, b);
    lemma_tie_order_strict_total(b, a, c);
    lemma_tie_order_strict_total(b, c, a);
    lemma_tie_order_strict_total(c, a, b);
    lemma_tie_order_strict_total(c, b, a);
}

/// The tie-break of two strings of equal length.
fn char_cmp(a: &str, b: &str) -> (r: Ordering)
    requires
        a@.len() == b@.len(),
    ensures
        r == char_order_from(a@, b@, 0),
{
    let n = a.unicode_len();
    let mut i: usize = n;
    let mut r = Ordering::Equal;
    while i > 0
        invariant
            n == a@.len(),
            n == b@.len(),
            i <= n,
            r == char_order_from(a@, b@, i as int),
        decreases i,
    {
        i = i - 1;
        let x = a.get_char(i);
        let y = b.get_char(i);
        if (x as u32) < (y as u32) {
            r = Ordering::Less;
        } else if (x as u32) > (y as u32) {
            r = Ordering::Greater;
        }
    }
    r
}

/// Compares two path strings by `path_order`. The order is antisymmetric, and holds
/// two strings equal exactly when they are the same string.
pub fn path_cmp(a: &str, b: &str) -> (r: Ordering)
    ensures
        r == path_order(a@, b@),
        path_order(b@, a@) == flip(r),
        r == Ordering::Equal <==> a@ == b@,
        forall|c: Seq<char>| #[trigger] path_among(a@, b@, c),
{
    let o = natural_cmp_str(a, b);
    proof {
        lemma_tie_order_strict_total(a@, b@, b@);
        assert forall|c: Seq<char>| #[trigger] path_among(a@, b@, c) by {
            assert(natural_among(o, a@, b@, c));
            lemma_path_among(a@, b@, c);
        }
    }
    break_tie(o, a, b)
}

/// Completes a natural-order verdict `natural` on `a` and `b` into the path order: where
/// it is `Equal`, the shorter string comes first, and between strings of one length the
/// first differing character decides.
pub fn break_tie(natural: Ordering, a: &str, b: &str) -> (r: Ordering)
    ensures
        r == settle_tie(natural, a@, b@),
{
    match natural {
        Ordering::Equal => {
            let n = a.unicode_len();
            let m = b.unicode_len();
            if n < m {
                Ordering::Less
            } else if n > m {
                Ordering::Greater
            } else {
                char_cmp(a, b)
            }
        },
        _ => natural,
    }
}

impl PathSortable {
    /// The natural order of two paths, made total by `tie_order`.
    pub fn cmp(&self, other: &PathSortable) -> (r: Ordering)
        ensures
            r == path_order(self@, other@),
            path_order(other@, self@) == flip(r),
            r == Ordering::Equal <==> self@ == other@,
            forall|c: Seq<char>| #[trigger] path_among(self@, other@, c),
    {
        path_cmp(self.0.as_str(), other.0.as_str())
    }

    /// The path's string rendering.
    pub fn as_str(&self) -> (r: &str)
        ensures
            r@ == self@,
    {
        self.0.as_str()
    }

    /// A second value holding the same path.
    pub fn duplicate(&self) -> (r: PathSortable)
        ensures
            r == *self,
    {
        PathSortable(self.0.clone())
    }
}

/// Whether each path comes no later, in the path order, than every path after it.
#[verifier::opaque]
pub open spec fn is_sorted(s: Seq<PathSortable>) -> bool {
    forall|i: int, j: int|
        0 <= i < j < s.len() ==> path_order(#[trigger] s[i]@, #[trigger] s[j]@)
            != Ordering::Greater
}

fn comes_after(a: &PathSortable, b: &PathSortable) -> (r: bool)
    ensures
        r == (path_order(a@, b@) == Ordering::Greater),
        path_order(b@, a@) == flip(path_order(a@, b@)),
        forall|c: Seq<char>| #[trigger] path_among(a@, b@, c),
{
    match a.cmp(b) {
        Ordering::Greater => true,
        _ => false,
    }
}

/// Arranges the paths in path order, keeping each of them.
pub fn sort_paths(v: Vec<PathSortable>) -> (r: Vec<PathSortable>)
    ensures
        r@.to_multiset() == v@.to_multiset(),
        is_sorted(r@),
{
    broadcast use vstd::seq_lib::group_to_multiset_ensures;
    broadcast use vstd::multiset::group_multiset_axioms;

    reveal(is_sorted);
    let mut rest = v;
    let mut out: Vec<PathSortable> = Vec::new();
    assert(out@.to_multiset() =~= Multiset::empty());
    assert(out@.to_multiset().add(rest@.to_multiset()) =~= v@.to_multiset());
    while rest.len() > 0
        invariant
            out@.to_multiset().add(rest@.to_multiset()) == v@.to_multiset(),
            is_sorted(out@),
        decreases rest.len(),
    {
        let ghost before = rest@;
        let ghost old_out = out@;
        let x = rest.pop().unwrap();
        assert(before =~= rest@.push(x));
        proof {
            vstd::seq_lib::to_multiset_build(rest@, x);
        }
        assert(before.to_multiset() == rest@.to_multiset().insert(x));
        let ghost xv = x;
        insert_sorted(&mut out, x);
        assert(out@.to_multiset() == old_out.to_multiset().insert(xv));
        assert(out@.to_multiset().add(rest@.to_multiset()) =~= old_out.to_multiset().add(
            before.to_multiset(),
        ));
        assert(out@.to_multiset().add(rest@.to_multiset()) =~= v@.to_multiset());
    }
    assert(rest@.to_multiset() =~= Multiset::empty());
    assert(out@.to_multiset() =~= v@.to_multiset());
    out
}

/// Puts `x` into sorted `out` at the first place where it keeps `out` sorted.
fn insert_sorted(out: &mut Vec<PathSortable>, x: PathSortable)
    requires
        is_sorted(old(out)@),
    ensures
        final(out)@.to_multiset() == old(out)@.to_multiset().insert(x),
        is_sorted(final(out)@),
{
    broadcast use vstd::seq_lib::group_to_multiset_ensures;

    reveal(is_sorted);
    let mut j: usize = 0;
    while j < out.len() && !comes_after(&out[j], &x)
        invariant
            j <= out.len(),
            forall|k: int| 0 <= k < j ==> path_order(#[trigger] out@[k]@, x@) != Ordering::Greater,
        decreases out.len() - j,
    {
        j = j + 1;
    }
    let ghost old_out = out@;
    let ghost xv = x;
    out.insert(j, x);
    assert forall|i: int, k: int| 0 <= i < k < out@.len() implies path_order(
        #[trigger] out@[i]@,
        #[trigger] out@[k]@,
    ) != Ordering::Greater by {
        if k < j {
            assert(out@[i] == old_out[i] && out@[k] == old_out[k]);
        } else if k == j {
            assert(out@[i] == old_out[i]);
        } else if i > j {
            assert(out@[i] == old_out[i - 1] && out@[k] == old_out[k - 1]);
        } else if i == j {
            assert(out@[k] == old_out[k - 1]);
            assert(path_among(old_out[j as int]@, xv@, old_out[k - 1]@));
            if k - 1 > j {
                assert(path_order(old_out[j as int]@, old_out[k - 1]@) != Ordering::Greater);
            }
        } else {
            assert(out@[i] == old_out[i] && out@[k] == old_out[k - 1]);
        }
    }
}

impl From<String> for PathSortable {
    fn from(p: String) -> (r: PathSortable) {
        PathSortable(p)
    }
}

impl vstd::std_specs::convert::FromSpecImpl<String> for PathSortable {
    open spec fn obeys_from_spec() -> bool {
        true
    }

    open spec fn from_spec(p: String) -> PathSortable {
        PathSortable(p)
    }
}

impl PartialEq for PathSortable {
    fn eq(&self, other: &PathSortable) -> (r: bool) {
        self.0 == other.0
    }
}

impl PartialOrd for PathSortable {
    fn partial_cmp(&self, other: &PathSortable) -> (r: Option<Ordering>) {
        Some(self.cmp(other))
    }
}

impl vstd::std_specs::cmp::PartialOrdSpecImpl for PathSortable {
    open spec fn obeys_partial_cmp_spec() -> bool {
        true
    }

    open spec fn partial_cmp_spec(&self, other: &PathSortable) -> Option<Ordering> {
        Some(path_order(self@, other@))
    }
}

impl Eq for PathSortable {}

impl vstd::std_specs::cmp::PartialEqSpecImpl for PathSortable {
    open spec fn obeys_eq_spec() -> bool {
        true
    }

    open spec fn eq_spec(&self, other: &PathSortable) -> bool {
        self@ == other@
    }
}

} // verus!
