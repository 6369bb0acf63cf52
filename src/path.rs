//! The backend-independent path model: a rooted sequence of named segments.

use vstd::prelude::*;
use vstd::string::*;
use std::cmp::Ordering;

use crate::error::StorageError;

verus! {

/// A character that some backend cannot hold in a name.
pub open spec fn is_reserved(c: char) -> bool {
    c == '\\' || c == '\0'
}

/// The names `.` and `..`, which a path may not hold.
pub open spec fn is_dot_name(s: Seq<char>) -> bool {
    s == seq!['.'] || s == seq!['.', '.']
}

/// A segment that every backend can represent.
pub open spec fn valid_segment(s: Seq<char>) -> bool {
    &&& s.len() > 0
    &&& !is_dot_name(s)
    &&& forall|i: int| 0 <= i < s.len() ==> #[trigger] s[i] != '/' && !is_reserved(s[i])
}

/// Every segment of `p` is valid.
pub open spec fn valid_segments(p: Seq<Seq<char>>) -> bool {
    forall|i: int| 0 <= i < p.len() ==> valid_segment(#[trigger] p[i])
}

/// Adds the open piece `cur` to the finished pieces unless it is empty.
pub open spec fn close_piece(done: Seq<Seq<char>>, cur: Seq<char>) -> Seq<Seq<char>> {
    if cur.len() > 0 {
        done.push(cur)
    } else {
        done
    }
}

/// Splits `s` at every `/`: the finished non-empty pieces, and the piece still open.
pub open spec fn split_state(s: Seq<char>) -> (Seq<Seq<char>>, Seq<char>)
    decreases s.len(),
{
    if s.len() == 0 {
        (Seq::empty(), Seq::empty())
    } else {
        let (done, cur) = split_state(s.drop_last());
        if s.last() == '/' {
            (close_piece(done, cur), Seq::empty())
        } else {
            (done, cur.push(s.last()))
        }
    }
}

/// The non-empty pieces of `s` between separators: repeated and trailing
/// separators leave no empty segment.
pub open spec fn segments_of(s: Seq<char>) -> Seq<Seq<char>> {
    close_piece(split_state(s).0, split_state(s).1)
}

/// `s` reads as a path: it starts at the root, holds no reserved character,
/// and no segment is `.` or `..`.
pub open spec fn parses(s: Seq<char>) -> bool {
    &&& s.len() > 0
    &&& s[0] == '/'
    &&& forall|i: int| 0 <= i < s.len() ==> !is_reserved(#[trigger] s[i])
    &&& forall|j: int| 0 <= j < segments_of(s).len() ==> !is_dot_name(#[trigger] segments_of(s)[j])
}

/// Each segment preceded by a separator.
pub open spec fn render_tail(p: Seq<Seq<char>>) -> Seq<char>
    decreases p.len(),
{
    if p.len() == 0 {
        Seq::empty()
    } else {
        render_tail(p.drop_last()) + seq!['/'] + p.last()
    }
}

/// The normalized text of a path: `/` for the root, else `/a/b/c`.
pub open spec fn render(p: Seq<Seq<char>>) -> Seq<char> {
    if p.len() == 0 {
        seq!['/']
    } else {
        render_tail(p)
    }
}

/// The text of each segment.
pub open spec fn seg_views(v: Seq<String>) -> Seq<Seq<char>> {
    v.map_values(|x: String| x@)
}

/// The segments joined by `sep`, with no separator before the first.
pub open spec fn joined(p: Seq<Seq<char>>, sep: Seq<char>) -> Seq<char>
    decreases p.len(),
{
    if p.len() == 0 {
        Seq::empty()
    } else if p.len() == 1 {
        p[0]
    } else {
        joined(p.drop_last(), sep) + sep + p.last()
    }
}

/// A validated logical path. Its segments are never empty, never `.` or `..`,
/// and hold neither `/` nor a reserved character.
#[derive(Clone, Debug, Eq, Hash, Ord)]
pub struct ObjectPath {
    segments: Vec<String>,
}

impl View for ObjectPath {
    type V = Seq<Seq<char>>;

    closed spec fn view(&self) -> Seq<Seq<char>> {
        seg_views(self.segments@)
    }
}

/// Whether `t` is `.` or `..`.
fn is_dot_str(t: &str) -> (r: bool)
    ensures
        r == is_dot_name(t@),
{
    let n = t.unicode_len();
    if n == 1 && t.get_char(0) == '.' {
        assert(t@ =~= seq!['.']);
        true
    } else if n == 2 && t.get_char(0) == '.' && t.get_char(1) == '.' {
        assert(t@ =~= seq!['.', '.']);
        true
    } else {
        false
    }
}

impl ObjectPath {
    /// The path is well formed.
    pub open spec fn wf(&self) -> bool {
        valid_segments(self@)
    }

    /// The root path, which has no segments.
    pub fn root() -> (r: ObjectPath)
        ensures
            r@ == Seq::<Seq<char>>::empty(),
            r.wf(),
    {
        let r = ObjectPath { segments: Vec::new() };
        assert(r@ =~= Seq::<Seq<char>>::empty());
        r
    }

    /// Parses a path. Repeated and trailing separators collapse; text that
    /// does not start at the root, holds a reserved character or a `.` or
    /// `..` segment is refused with `InvalidPath`.
    pub fn new(s: &str) -> (r: Result<ObjectPath, StorageError>)
        ensures
            match r {
                Ok(p) => parses(s@) && p@ == segments_of(s@) && p.wf(),
                Err(e) => !parses(s@) && e@ == crate::error::ErrorView::InvalidPath(s@),
            },
    {
        let n = s.unicode_len();
        if n == 0 || s.get_char(0) != '/' {
            return Err(StorageError::InvalidPath(String::from_str(s)));
        }
        let mut segs: Vec<String> = Vec::new();
        let mut start: usize = 0;
        let mut clean = true;
        let mut plain = true;
        let mut i: usize = 0;
        proof {
            assert(s@.subrange(0, 0) =~= Seq::<char>::empty());
            assert(seg_views(segs@) =~= Seq::<Seq<char>>::empty());
        }
        while i < n
            invariant
                n == s@.len(),
                start <= i <= n,
                split_state(s@.subrange(0, i as int)).0 == seg_views(segs@),
                segs@.len() == seg_views(segs@).len(),
                split_state(s@.subrange(0, i as int)).1 == s@.subrange(start as int, i as int),
                clean == (forall|k: int| 0 <= k < i ==> !is_reserved(#[trigger] s@[k])),
                plain == (forall|j: int| 0 <= j < segs@.len() ==> !is_dot_name(#[trigger] segs@[j]@)),
            decreases n - i,
        {
            let c = s.get_char(i);
            let ghost pre = s@.subrange(0, i as int);
            assert(s@.subrange(0, i + 1).drop_last() =~= pre);
            if c == '/' {
                if start < i {
                    let piece = s.substring_char(start, i);
                    if is_dot_str(piece) {
                        plain = false;
                    }
                    let ghost before = segs@;
                    segs.push(String::from_str(piece));
                    assert(forall|j: int| 0 <= j < before.len() ==> segs@[j] == before[j]);
                    assert(segs@[before.len() as int]@ == piece@);
                }
                start = i + 1;
                assert(s@.subrange(start as int, i + 1) =~= Seq::<char>::empty());
            } else {
                if c == '\\' || c == '\0' {
                    clean = false;
                }
                assert(s@.subrange(start as int, i + 1) =~= s@.subrange(start as int, i as int).push(c));
            }
            assert(seg_views(segs@) =~= split_state(s@.subrange(0, i + 1)).0);
            i = i + 1;
        }
        if start < n {
            let piece = s.substring_char(start, n);
            if is_dot_str(piece) {
                plain = false;
            }
            let ghost before = segs@;
            segs.push(String::from_str(piece));
            assert(forall|j: int| 0 <= j < before.len() ==> segs@[j] == before[j]);
            assert(segs@[before.len() as int]@ == piece@);
        }
        assert(s@.subrange(0, n as int) =~= s@);
        let p = ObjectPath { segments: segs };
        assert(p@ =~= segments_of(s@));
        if !clean || !plain {
            proof {
                if !clean {
                    let k = choose|k: int| 0 <= k < n && is_reserved(#[trigger] s@[k]);
                    assert(is_reserved(s@[k]));
                } else {
                    let j = choose|j: int| 0 <= j < segs@.len() && is_dot_name(#[trigger] segs@[j]@);
                    assert(seg_views(segs@)[j] == segs@[j]@);
                    assert(segments_of(s@)[j] == segs@[j]@);
                }
            }
            return Err(StorageError::InvalidPath(String::from_str(s)));
        }
        proof {
            lemma_segments_valid(s@);
        }
        Ok(p)
    }
}

/// The pieces that splitting yields are non-empty when finished, and hold no
/// separator and, when `s` holds none, no reserved character.
proof fn lemma_split_pieces(s: Seq<char>)
    requires
        forall|i: int| 0 <= i < s.len() ==> !is_reserved(#[trigger] s[i]),
    ensures
        forall|j: int| 0 <= j < split_state(s).0.len() ==> valid_chars(#[trigger] split_state(s).0[j])
            && split_state(s).0[j].len() > 0,
        valid_chars(split_state(s).1),
    decreases s.len(),
{
    if s.len() > 0 {
        let t = s.drop_last();
        assert forall|i: int| 0 <= i < t.len() implies !is_reserved(#[trigger] t[i]) by {
            assert(t[i] == s[i]);
        }
        lemma_split_pieces(t);
        assert(!is_reserved(s[s.len() - 1]));
        let (done, cur) = split_state(t);
        if s.last() != '/' {
            assert forall|k: int| 0 <= k < cur.push(s.last()).len() implies #[trigger] cur.push(s.last())[k] != '/'
                && !is_reserved(cur.push(s.last())[k]) by {
                if k < cur.len() {
                    assert(cur.push(s.last())[k] == cur[k]);
                }
            }
        }
    }
}

/// No character is a separator or reserved.
pub open spec fn valid_chars(s: Seq<char>) -> bool {
    forall|i: int| 0 <= i < s.len() ==> #[trigger] s[i] != '/' && !is_reserved(s[i])
}

proof fn lemma_segments_valid(s: Seq<char>)
    requires
        parses(s),
    ensures
        valid_segments(segments_of(s)),
{
    lemma_split_pieces(s);
    let segs = segments_of(s);
    assert forall|j: int| 0 <= j < segs.len() implies valid_segment(#[trigger] segs[j]) by {
        assert(!is_dot_name(segs[j]));
        if j < split_state(s).0.len() {
            assert(segs[j] == split_state(s).0[j]);
        }
    }
}

/// Appending characters without a separator extends the open piece.
proof fn lemma_split_extend(t: Seq<char>, seg: Seq<char>, k: int)
    requires
        split_state(t).1.len() == 0,
        0 <= k <= seg.len(),
        forall|i: int| 0 <= i < seg.len() ==> #[trigger] seg[i] != '/',
    ensures
        split_state(t + seg.subrange(0, k)) == (split_state(t).0, seg.subrange(0, k)),
    decreases k,
{
    if k == 0 {
        assert(t + seg.subrange(0, 0) =~= t);
        assert(split_state(t).1 =~= seg.subrange(0, 0));
    } else {
        lemma_split_extend(t, seg, k - 1);
        let u = t + seg.subrange(0, k);
        assert(u.drop_last() =~= t + seg.subrange(0, k - 1));
        assert(u.last() == seg[k - 1]);
        assert(seg.subrange(0, k - 1).push(seg[k - 1]) =~= seg.subrange(0, k));
    }
}

/// Splitting the text of a non-empty path gives back all its segments but
/// the last as finished pieces, and the last as the open one.
proof fn lemma_split_render_tail(p: Seq<Seq<char>>)
    requires
        valid_segments(p),
    ensures
        p.len() == 0 ==> split_state(render_tail(p)) == (Seq::<Seq<char>>::empty(), Seq::<char>::empty()),
        p.len() > 0 ==> split_state(render_tail(p)) == (p.drop_last(), p.last()),
    decreases p.len(),
{
    if p.len() > 0 {
        let q = p.drop_last();
        assert forall|i: int| 0 <= i < q.len() implies valid_segment(#[trigger] q[i]) by {
            assert(q[i] == p[i]);
        }
        lemma_split_render_tail(q);
        let t = render_tail(q) + seq!['/'];
        assert(t.drop_last() =~= render_tail(q));
        if q.len() > 0 {
            assert(q.drop_last().push(q.last()) =~= q);
        }
        assert(split_state(t) == (q, Seq::<char>::empty()));
        let last = p.last();
        assert(valid_segment(p[p.len() - 1]));
        lemma_split_extend(t, last, last.len() as int);
        assert(last.subrange(0, last.len() as int) =~= last);
        assert(render_tail(p) == t + last);
    }
}

/// The text of a path starts at the root and holds no reserved character.
proof fn lemma_render_tail_chars(p: Seq<Seq<char>>)
    requires
        valid_segments(p),
    ensures
        p.len() > 0 ==> render_tail(p)[0] == '/',
        forall|i: int| 0 <= i < render_tail(p).len() ==> !is_reserved(#[trigger] render_tail(p)[i]),
    decreases p.len(),
{
    if p.len() > 0 {
        let q = p.drop_last();
        assert forall|i: int| 0 <= i < q.len() implies valid_segment(#[trigger] q[i]) by {
            assert(q[i] == p[i]);
        }
        lemma_render_tail_chars(q);
        let last = p.last();
        assert(valid_segment(p[p.len() - 1]));
        let t = render_tail(q);
        assert forall|i: int| 0 <= i < render_tail(p).len() implies !is_reserved(#[trigger] render_tail(p)[i]) by {
            if i < t.len() {
                assert(render_tail(p)[i] == t[i]);
            } else if i > t.len() {
                assert(render_tail(p)[i] == last[i - t.len() - 1]);
            }
        }
    }
}

/// Parsing the normalized text of a valid path gives back the same path.
pub proof fn parse_render_round_trip(p: Seq<Seq<char>>)
    requires
        valid_segments(p),
    ensures
        parses(render(p)),
        segments_of(render(p)) == p,
{
    if p.len() == 0 {
        let r = seq!['/'];
        assert(r.drop_last() =~= Seq::<char>::empty());
        assert(r.last() == '/');
        assert(split_state(r.drop_last()) == (Seq::<Seq<char>>::empty(), Seq::<char>::empty()));
        assert(split_state(r) == (Seq::<Seq<char>>::empty(), Seq::<char>::empty()));
        assert(segments_of(r) =~= p);
    } else {
        lemma_split_render_tail(p);
        lemma_render_tail_chars(p);
        assert(p.drop_last().push(p.last()) =~= p);
        assert(render_tail(p).len() > 0);
    }
}

/// Orders two segments lexicographically by their characters.
pub open spec fn segment_cmp(a: Seq<char>, b: Seq<char>) -> Ordering
    decreases a.len(),
{
    if a.len() == 0 {
        if b.len() == 0 {
            Ordering::Equal
        } else {
            Ordering::Less
        }
    } else if b.len() == 0 {
        Ordering::Greater
    } else if a[0] < b[0] {
        Ordering::Less
    } else if a[0] > b[0] {
        Ordering::Greater
    } else {
        segment_cmp(a.drop_first(), b.drop_first())
    }
}

/// Orders two paths lexicographically by their segments.
pub open spec fn path_cmp(a: Seq<Seq<char>>, b: Seq<Seq<char>>) -> Ordering
    decreases a.len(),
{
    if a.len() == 0 {
        if b.len() == 0 {
            Ordering::Equal
        } else {
            Ordering::Less
        }
    } else if b.len() == 0 {
        Ordering::Greater
    } else if segment_cmp(a[0], b[0]) != Ordering::Equal {
        segment_cmp(a[0], b[0])
    } else {
        path_cmp(a.drop_first(), b.drop_first())
    }
}

/// Two segments compare equal exactly when they are equal.
pub proof fn lemma_segment_cmp_equal(a: Seq<char>, b: Seq<char>)
    ensures
        (segment_cmp(a, b) == Ordering::Equal) == (a == b),
    decreases a.len(),
{
    if a.len() == 0 && b.len() == 0 {
        assert(a =~= b);
    }
    if a.len() > 0 && b.len() > 0 && a[0] == b[0] {
        lemma_segment_cmp_equal(a.drop_first(), b.drop_first());
        if a.drop_first() == b.drop_first() {
            assert(a =~= seq![a[0]] + a.drop_first());
            assert(b =~= seq![b[0]] + b.drop_first());
        }
    } else if a.len() > 0 && b.len() > 0 {
    }
}

/// Two paths compare equal exactly when they are equal.
pub proof fn lemma_path_cmp_equal(a: Seq<Seq<char>>, b: Seq<Seq<char>>)
    ensures
        (path_cmp(a, b) == Ordering::Equal) == (a == b),
    decreases a.len(),
{
    if a.len() == 0 && b.len() == 0 {
        assert(a =~= b);
    }
    if a.len() > 0 && b.len() > 0 {
        lemma_segment_cmp_equal(a[0], b[0]);
        lemma_path_cmp_equal(a.drop_first(), b.drop_first());
        if a[0] == b[0] && a.drop_first() == b.drop_first() {
            assert(a =~= seq![a[0]] + a.drop_first());
            assert(b =~= seq![b[0]] + b.drop_first());
        }
    }
}

/// Compares two segments character by character.
fn compare_segments(a: &String, b: &String) -> (r: Ordering)
    ensures
        r == segment_cmp(a@, b@),
{
    let na = a.as_str().unicode_len();
    let nb = b.as_str().unicode_len();
    let mut i: usize = 0;
    assert(a@.subrange(0, na as int) =~= a@);
    assert(b@.subrange(0, nb as int) =~= b@);
    while i < na && i < nb
        invariant
            na == a@.len(),
            nb == b@.len(),
            i <= na,
            i <= nb,
            segment_cmp(a@, b@) == segment_cmp(a@.subrange(i as int, na as int), b@.subrange(i as int, nb as int)),
        decreases na - i,
    {
        let ca = a.as_str().get_char(i);
        let cb = b.as_str().get_char(i);
        let ghost sa = a@.subrange(i as int, na as int);
        let ghost sb = b@.subrange(i as int, nb as int);
        assert(sa.drop_first() =~= a@.subrange(i + 1, na as int));
        assert(sb.drop_first() =~= b@.subrange(i + 1, nb as int));
        if ca < cb {
            return Ordering::Less;
        } else if ca > cb {
            return Ordering::Greater;
        }
        i = i + 1;
    }
    if i < na {
        Ordering::Greater
    } else if i < nb {
        Ordering::Less
    } else {
        Ordering::Equal
    }
}

impl ObjectPath {
    /// Orders paths lexicographically over their segments.
    pub fn cmp_path(&self, other: &ObjectPath) -> (r: Ordering)
        ensures
            r == path_cmp(self@, other@),
    {
        let na = self.segments.len();
        let nb = other.segments.len();
        let mut i: usize = 0;
        assert(self@.subrange(0, na as int) =~= self@);
        assert(other@.subrange(0, nb as int) =~= other@);
        while i < na && i < nb
            invariant
                na == self@.len(),
                nb == other@.len(),
                i <= na,
                i <= nb,
                path_cmp(self@, other@) == path_cmp(self@.subrange(i as int, na as int), other@.subrange(i as int, nb as int)),
            decreases na - i,
        {
            let c = compare_segments(&self.segments[i], &other.segments[i]);
            let ghost sa = self@.subrange(i as int, na as int);
            let ghost sb = other@.subrange(i as int, nb as int);
            assert(sa.drop_first() =~= self@.subrange(i + 1, na as int));
            assert(sb.drop_first() =~= other@.subrange(i + 1, nb as int));
            match c {
                Ordering::Equal => {},
                _ => {
                    return c;
                },
            }
            i = i + 1;
        }
        if i < na {
            Ordering::Greater
        } else if i < nb {
            Ordering::Less
        } else {
            Ordering::Equal
        }
    }

    /// A copy of the path.
    pub fn duplicate(&self) -> (r: ObjectPath)
        ensures
            r@ == self@,
    {
        let mut segs: Vec<String> = Vec::new();
        let mut i: usize = 0;
        while i < self.segments.len()
            invariant
                i <= self@.len(),
                segs@.len() == i,
                seg_views(segs@) =~= self@.subrange(0, i as int),
            decreases self@.len() - i,
        {
            segs.push(self.segments[i].clone());
            i = i + 1;
        }
        ObjectPath { segments: segs }
    }

    /// The number of segments; the root has none.
    pub fn depth(&self) -> (r: usize)
        ensures
            r == self@.len(),
    {
        self.segments.len()
    }

    /// Whether this is the root path.
    pub fn is_root(&self) -> (r: bool)
        ensures
            r == (self@.len() == 0),
    {
        self.segments.len() == 0
    }

    /// The last segment; the root has none.
    pub fn name(&self) -> (r: Option<String>)
        ensures
            match r {
                Some(n) => self@.len() > 0 && n@ == self@.last(),
                None => self@.len() == 0,
            },
    {
        let n = self.segments.len();
        if n == 0 {
            None
        } else {
            Some(self.segments[n - 1].clone())
        }
    }

    /// The path without its last segment; the root has none.
    pub fn parent(&self) -> (r: Option<ObjectPath>)
        ensures
            match r {
                Some(p) => self@.len() > 0 && p@ == self@.drop_last() && (self.wf() ==> p.wf()),
                None => self@.len() == 0,
            },
    {
        let n = self.segments.len();
        if n == 0 {
            return None;
        }
        let mut segs: Vec<String> = Vec::new();
        let mut i: usize = 0;
        while i < n - 1
            invariant
                n == self@.len(),
                n > 0,
                i <= n - 1,
                segs@.len() == i,
                seg_views(segs@) =~= self@.subrange(0, i as int),
            decreases n - 1 - i,
        {
            segs.push(self.segments[i].clone());
            i = i + 1;
        }
        let p = ObjectPath { segments: segs };
        assert(p@ =~= self@.drop_last());
        Some(p)
    }

    /// The segments of `relative` appended to this path.
    pub fn join(&self, relative: &ObjectPath) -> (r: ObjectPath)
        ensures
            r@ == self@ + relative@,
            self.wf() && relative.wf() ==> r.wf(),
    {
        let mut segs: Vec<String> = Vec::new();
        let mut i: usize = 0;
        while i < self.segments.len()
            invariant
                i <= self@.len(),
                segs@.len() == i,
                seg_views(segs@) =~= self@.subrange(0, i as int),
            decreases self@.len() - i,
        {
            segs.push(self.segments[i].clone());
            i = i + 1;
        }
        let mut j: usize = 0;
        while j < relative.segments.len()
            invariant
                i == self@.len(),
                j <= relative@.len(),
                segs@.len() == i + j,
                seg_views(segs@) =~= self@ + relative@.subrange(0, j as int),
            decreases relative@.len() - j,
        {
            let ghost before = segs@;
            segs.push(relative.segments[j].clone());
            assert(seg_views(segs@) =~= seg_views(before).push(relative@[j as int]));
            assert(relative@.subrange(0, j + 1) =~= relative@.subrange(0, j as int).push(relative@[j as int]));
            j = j + 1;
        }
        let r = ObjectPath { segments: segs };
        assert(r@ =~= self@ + relative@);
        r
    }

    /// Whether `prefix` is this path or one of its ancestors.
    pub fn starts_with(&self, prefix: &ObjectPath) -> (r: bool)
        ensures
            r == (prefix@.len() <= self@.len() && self@.subrange(0, prefix@.len() as int) == prefix@),
    {
        let n = prefix.segments.len();
        if n > self.segments.len() {
            return false;
        }
        let mut i: usize = 0;
        while i < n
            invariant
                n == prefix@.len(),
                n <= self@.len(),
                i <= n,
                self@.subrange(0, i as int) =~= prefix@.subrange(0, i as int),
            decreases n - i,
        {
            if self.segments[i] != prefix.segments[i] {
                assert(self@.subrange(0, n as int)[i as int] != prefix@[i as int]);
                return false;
            }
            i = i + 1;
        }
        assert(prefix@.subrange(0, n as int) =~= prefix@);
        true
    }

    /// Whether `self` is a proper ancestor of `other`.
    pub fn is_ancestor_of(&self, other: &ObjectPath) -> (r: bool)
        ensures
            r == (self@.len() < other@.len() && other@.subrange(0, self@.len() as int) == self@),
    {
        self.segments.len() < other.segments.len() && other.starts_with(self)
    }

    /// The path in a backend's own addressing: the segments joined by
    /// `separator`, without a leading one. With `/` this is the key of a flat
    /// object store; with a file system's separator, the path below its root.
    pub fn to_backend_string(&self, separator: &str) -> (r: String)
        ensures
            r@ == joined(self@, separator@),
    {
        let mut out = String::new();
        let mut i: usize = 0;
        assert(self@.subrange(0, 0) =~= Seq::<Seq<char>>::empty());
        while i < self.segments.len()
            invariant
                i <= self@.len(),
                out@ == joined(self@.subrange(0, i as int), separator@),
            decreases self@.len() - i,
        {
            if i > 0 {
                out.append(separator);
            }
            out.append(self.segments[i].as_str());
            let ghost next = self@.subrange(0, i + 1);
            assert(next.drop_last() =~= self@.subrange(0, i as int));
            if i == 0 {
                assert(out@ =~= next[0]);
            }
            i = i + 1;
        }
        assert(self@.subrange(0, self@.len() as int) =~= self@);
        out
    }

    /// The normalized text of the path, `/` for the root.
    pub fn to_string(&self) -> (r: String)
        ensures
            r@ == render(self@),
    {
        let mut out = String::new();
        proof {
            reveal_strlit("/");
        }
        if self.segments.len() == 0 {
            out.append("/");
            assert(out@ =~= seq!['/']);
            return out;
        }
        let mut i: usize = 0;
        while i < self.segments.len()
            invariant
                i <= self@.len(),
                out@ == render_tail(self@.subrange(0, i as int)),
                "/"@ == seq!['/'],
            decreases self@.len() - i,
        {
            out.append("/");
            out.append(self.segments[i].as_str());
            assert(self@.subrange(0, i + 1).drop_last() =~= self@.subrange(0, i as int));
            i = i + 1;
        }
        assert(self@.subrange(0, self@.len() as int) =~= self@);
        out
    }
}

impl PartialEq for ObjectPath {
    fn eq(&self, other: &ObjectPath) -> (r: bool) {
        let n = self.segments.len();
        if n != other.segments.len() {
            return false;
        }
        let mut i: usize = 0;
        while i < n
            invariant
                n == self@.len(),
                n == other@.len(),
                i <= n,
                self@.subrange(0, i as int) =~= other@.subrange(0, i as int),
            decreases n - i,
        {
            if self.segments[i] != other.segments[i] {
                assert(self@[i as int] != other@[i as int]);
                return false;
            }
            i = i + 1;
        }
        assert(self@ =~= self@.subrange(0, n as int));
        assert(other@ =~= other@.subrange(0, n as int));
        true
    }
}

impl vstd::std_specs::cmp::PartialEqSpecImpl for ObjectPath {
    open spec fn obeys_eq_spec() -> bool {
        true
    }

    open spec fn eq_spec(&self, other: &ObjectPath) -> bool {
        self@ == other@
    }
}

impl PartialOrd for ObjectPath {
    fn partial_cmp(&self, other: &ObjectPath) -> (r: Option<Ordering>) {
        Some(self.cmp_path(other))
    }
}

impl vstd::std_specs::cmp::PartialOrdSpecImpl for ObjectPath {
    open spec fn obeys_partial_cmp_spec() -> bool {
        true
    }

    open spec fn partial_cmp_spec(&self, other: &ObjectPath) -> Option<Ordering> {
        Some(path_cmp(self@, other@))
    }
}

} // verus!
