use std::rc::Rc;
use vstd::prelude::*;
use vstd::std_specs::iter::IteratorSpec;

verus! {

/// Number of line breaks in a sequence of scalars.
pub open spec fn newlines(s: Seq<char>) -> nat
    decreases s.len(),
{
    if s.len() == 0 {
        0
    } else {
        newlines(s.drop_last()) + if s.last() == '\n' { 1nat } else { 0nat }
    }
}

/// Line breaks are counted piecewise over a concatenation.
pub proof fn lemma_newlines_concat(a: Seq<char>, b: Seq<char>)
    ensures
        newlines(a + b) == newlines(a) + newlines(b),
    decreases b.len(),
{
    if b.len() == 0 {
        assert(a + b =~= a);
    } else {
        lemma_newlines_concat(a, b.drop_last());
        assert((a + b).drop_last() =~= a + b.drop_last());
    }
}

/// A text never holds more line breaks than scalars.
pub proof fn lemma_newlines_bound(s: Seq<char>)
    ensures
        newlines(s) <= s.len(),
    decreases s.len(),
{
    if s.len() > 0 {
        lemma_newlines_bound(s.drop_last());
    }
}

/// `t` placed into `s` at offset `i`.
pub open spec fn spliced(s: Seq<char>, i: int, t: Seq<char>) -> Seq<char> {
    s.subrange(0, i) + t + s.subrange(i, s.len() as int)
}

/// `s` without the `n` scalars that start at offset `i`.
pub open spec fn removed(s: Seq<char>, i: int, n: int) -> Seq<char> {
    s.subrange(0, i) + s.subrange(i + n, s.len() as int)
}

/// Offset `o` is where line `n` of `s` starts: `n` line breaks stand before it and
/// the last of them, if any, just before it.
pub open spec fn starts_line(s: Seq<char>, o: int, n: nat) -> bool {
    &&& 0 <= o <= s.len()
    &&& newlines(s.subrange(0, o)) == n
    &&& (o == 0 || s[o - 1] == '\n')
}

/// The text of a run of nodes, read one after another.
pub open spec fn joined(v: Seq<Rc<RopeNode>>) -> Seq<char>
    decreases v.len(),
{
    if v.len() == 0 {
        Seq::empty()
    } else {
        joined(v.drop_last()) + (*v.last())@
    }
}

/// Every node of the run is a well-formed leaf.
pub open spec fn all_leaves(v: Seq<Rc<RopeNode>>) -> bool {
    forall|k: int| 0 <= k < v.len() ==> #[trigger] v[k].wf() && v[k].depth() == 0
}

/// The least `d` with `n <= 2^d`.
pub open spec fn ceil_log2(n: nat) -> nat
    decreases n,
{
    if n <= 1 {
        0
    } else {
        1 + ceil_log2(((n + 1) / 2) as nat)
    }
}

proof fn lemma_ceil_log2_mono(a: nat, b: nat)
    requires
        a <= b,
    ensures
        ceil_log2(a) <= ceil_log2(b),
    decreases b,
{
    if a > 1 {
        lemma_ceil_log2_mono(((a + 1) / 2) as nat, ((b + 1) / 2) as nat);
    }
}

proof fn lemma_joined_concat(a: Seq<Rc<RopeNode>>, b: Seq<Rc<RopeNode>>)
    ensures
        joined(a + b) == joined(a) + joined(b),
    decreases b.len(),
{
    if b.len() == 0 {
        assert(a + b =~= a);
        assert(joined(a) + joined(b) =~= joined(a));
    } else {
        lemma_joined_concat(a, b.drop_last());
        assert((a + b).drop_last() =~= a + b.drop_last());
        assert(joined(a + b) =~= joined(a) + joined(b));
    }
}

/// Offset `o` is column `col` of line `n` of `s`, held at the end of that line: it
/// lies on that line, at most `col` past its start, and short of `col` only where the
/// line ends.
pub open spec fn at_column(s: Seq<char>, n: nat, col: int, o: int) -> bool {
    exists|st: int|
        #![trigger starts_line(s, st, n)]
        {
            &&& starts_line(s, st, n)
            &&& st <= o <= s.len()
            &&& o - st <= col
            &&& forall|k: int| st <= k < o ==> s[k] != '\n'
            &&& (o - st == col || o == s.len() || s[o] == '\n')
        }
}

/// Relies on `String`'s `FromIterator<char>`: the scalars are collected in order.
#[verifier::external_body]
fn string_of(v: &Vec<char>) -> (r: String)
    ensures
        r@ == v@,
{
    v.iter().collect()
}

/// Relies on `Rc::clone`: the new handle points at the same value.
#[verifier::external_body]
fn share(r: &Rc<RopeNode>) -> (s: Rc<RopeNode>)
    ensures
        s == *r,
{
    Rc::clone(r)
}

/// A node of a rope: a leaf holding text, or an internal node over two shared children.
///
/// `weight` is the length of the left subtree (of the text, for a leaf), `length` the
/// length of the whole node and `lines` the number of line breaks under it.
pub struct RopeNode {
    left: Option<Rc<RopeNode>>,
    right: Option<Rc<RopeNode>>,
    weight: usize,
    length: usize,
    lines: usize,
    contents: Vec<char>,
}

impl View for RopeNode {
    type V = Seq<char>;

    closed spec fn view(&self) -> Seq<char> {
        self.content()
    }
}

impl RopeNode {
    /// The text under this node, leaves read from left to right.
    pub closed spec fn content(self) -> Seq<char>
        decreases self,
    {
        match (self.left, self.right) {
            (Some(l), Some(r)) => (*l).content() + (*r).content(),
            _ => self.contents@,
        }
    }

    /// The cached weight, length and line counts agree with the text, at every node.
    pub closed spec fn wf(self) -> bool
        decreases self,
    {
        match (self.left, self.right) {
            (Some(l), Some(r)) => {
                &&& (*l).wf()
                &&& (*r).wf()
                &&& self.weight == (*l).content().len()
                &&& self.length == self.weight + (*r).content().len()
                &&& self.lines == newlines(self.content())
                &&& self.contents@.len() == 0
            },
            (None, None) => {
                &&& self.weight == self.contents@.len()
                &&& self.length == self.contents@.len()
                &&& self.lines == newlines(self.contents@)
            },
            _ => false,
        }
    }

    /// Number of leaves under this node.
    pub closed spec fn leaf_count(self) -> nat
        decreases self,
    {
        match (self.left, self.right) {
            (Some(l), Some(r)) => (*l).leaf_count() + (*r).leaf_count(),
            _ => 1,
        }
    }

    /// Depth of the tree under this node; a leaf has depth zero.
    pub closed spec fn depth(self) -> nat
        decreases self,
    {
        match (self.left, self.right) {
            (Some(l), Some(r)) => 1 + vstd::math::max((*l).depth() as int, (*r).depth() as int) as nat,
            _ => 0,
        }
    }

    fn leaf(contents: Vec<char>) -> (r: RopeNode)
        ensures
            r.wf(),
            r@ == contents@,
    {
        let mut lines: usize = 0;
        let mut j: usize = 0;
        while j < contents.len()
            invariant
                j <= contents@.len(),
                lines == newlines(contents@.subrange(0, j as int)),
            decreases contents@.len() - j,
        {
            proof {
                assert(contents@.subrange(0, j + 1).drop_last() =~= contents@.subrange(0, j as int));
                lemma_newlines_bound(contents@.subrange(0, j as int));
            }
            if contents[j] == '\n' {
                lines = lines + 1;
            }
            j = j + 1;
        }
        assert(contents@.subrange(0, j as int) =~= contents@);
        let n = contents.len();
        RopeNode { left: None, right: None, weight: n, length: n, lines, contents }
    }

    fn join(left: Rc<RopeNode>, right: Rc<RopeNode>) -> (r: RopeNode)
        requires
            left.wf(),
            right.wf(),
            left@.len() + right@.len() <= usize::MAX,
        ensures
            r.wf(),
            r@ == left@ + right@,
            r.depth() == 1 + vstd::math::max(left.depth() as int, right.depth() as int),
            r.leaf_count() == left.leaf_count() + right.leaf_count(),
    {
        proof {
            lemma_newlines_concat(left@, right@);
            lemma_newlines_bound(left@ + right@);
        }
        let weight = left.length;
        let length = left.length + right.length;
        let lines = left.lines + right.lines;
        RopeNode {
            left: Some(left),
            right: Some(right),
            weight,
            length,
            lines,
            contents: Vec::new(),
        }
    }

    /// A rope of one leaf holding the scalars of `s`.
    pub fn new(s: String) -> (r: RopeNode)
        ensures
            r.wf(),
            r@ == s@,
    {
        broadcast use vstd::string::axiom_spec_iter, vstd::string::next_postcondition;
        let mut it = s.as_str().chars();
        let mut v: Vec<char> = Vec::new();
        loop
            invariant
                v@ + it.remaining() == s@,
                it.obeys_prophetic_iter_laws(),
                it.decrease() is Some,
            ensures
                v@ == s@,
            decreases it.decrease()->0,
        {
            match it.next() {
                Some(c) => {
                    v.push(c);
                },
                None => {
                    assert(v@ + it.remaining() =~= v@);
                    break;
                },
            }
        }
        RopeNode::leaf(v)
    }

    /// The scalar at offset `i`, or `None` when `i` is past the end.
    pub fn index(&self, i: usize) -> (r: Option<char>)
        requires
            self.wf(),
        ensures
            i < self@.len() ==> r == Some(self@[i as int]),
            i >= self@.len() ==> r is None,
        decreases self,
    {
        match (&self.left, &self.right) {
            (Some(l), Some(r)) => {
                assert(self@ == l@ + r@);
                proof {
                    r.lemma_wf_length();
                }
                if i < self.weight {
                    l.index(i)
                } else if i - self.weight < r.length {
                    r.index(i - self.weight)
                } else {
                    None
                }
            },
            _ => {
                assert(self@ == self.contents@);
                if i < self.contents.len() {
                    Some(self.contents[i])
                } else {
                    None
                }
            },
        }
    }

    /// The rope holding `left` followed by `right`; neither is copied.
    pub fn concat(left: RopeNode, right: RopeNode) -> (r: RopeNode)
        requires
            left.wf(),
            right.wf(),
            left@.len() + right@.len() <= usize::MAX,
        ensures
            r.wf(),
            r@ == left@ + right@,
    {
        RopeNode::join(Rc::new(left), Rc::new(right))
    }

    /// The number of scalars in the rope.
    pub fn length(&self) -> (r: usize)
        requires
            self.wf(),
        ensures
            r == self@.len(),
    {
        proof {
            self.lemma_wf_length();
        }
        self.length
    }

    /// The number of line breaks in the rope.
    pub fn line_breaks(&self) -> (r: usize)
        requires
            self.wf(),
        ensures
            r == newlines(self@),
    {
        proof {
            self.lemma_wf_length();
        }
        self.lines
    }

    proof fn lemma_leaf_count_pos(&self)
        ensures
            self.leaf_count() >= 1,
        decreases self,
    {
        match (self.left, self.right) {
            (Some(l), Some(r)) => {
                l.lemma_leaf_count_pos();
                r.lemma_leaf_count_pos();
            },
            _ => {},
        }
    }

    proof fn lemma_wf_length(&self)
        requires
            self.wf(),
        ensures
            self.length == self@.len(),
            self.lines == newlines(self@),
            self.left is Some ==> self.weight == (*self.left->0)@.len(),
    {
    }

    /// The two ropes holding the scalars before offset `i` and from `i` on.
    pub fn split(&self, i: usize) -> (r: (RopeNode, RopeNode))
        requires
            self.wf(),
            i <= self@.len(),
        ensures
            r.0.wf(),
            r.1.wf(),
            r.0@ == self@.subrange(0, i as int),
            r.1@ == self@.subrange(i as int, self@.len() as int),
        decreases self,
    {
        match (&self.left, &self.right) {
            (Some(l), Some(r)) => {
                if i < self.weight {
                    let (ll, lr) = l.split(i);
                    let right = RopeNode::join(Rc::new(lr), share(r));
                    assert(ll@ =~= self@.subrange(0, i as int));
                    assert(right@ =~= self@.subrange(i as int, self@.len() as int));
                    (ll, right)
                } else {
                    let (rl, rr) = r.split(i - self.weight);
                    let left = RopeNode::join(share(l), Rc::new(rl));
                    assert(left@ =~= self@.subrange(0, i as int));
                    assert(rr@ =~= self@.subrange(i as int, self@.len() as int));
                    (left, rr)
                }
            },
            _ => {
                let mut a: Vec<char> = Vec::new();
                let mut b: Vec<char> = Vec::new();
                let n = self.contents.len();
                let mut j: usize = 0;
                while j < n
                    invariant
                        n == self.contents@.len(),
                        i <= n,
                        j <= n,
                        a@ == self.contents@.subrange(0, if j < i { j as int } else { i as int }),
                        b@ == self.contents@.subrange(i as int, if j < i { i as int } else { j as int }),
                    decreases n - j,
                {
                    if j < i {
                        a.push(self.contents[j]);
                    } else {
                        b.push(self.contents[j]);
                    }
                    j = j + 1;
                    assert(a@ =~= self.contents@.subrange(0, if j < i { j as int } else { i as int }));
                    assert(b@ =~= self.contents@.subrange(i as int, if j < i { i as int } else { j as int }));
                }
                (RopeNode::leaf(a), RopeNode::leaf(b))
            },
        }
    }

    /// The rope with `rope` placed at offset `i`.
    pub fn insert(&self, i: usize, rope: RopeNode) -> (r: RopeNode)
        requires
            self.wf(),
            rope.wf(),
            i <= self@.len(),
            self@.len() + rope@.len() <= usize::MAX,
        ensures
            r.wf(),
            r@ == spliced(self@, i as int, rope@),
    {
        let (before, after) = self.split(i);
        let before_concat = RopeNode::concat(before, rope);
        RopeNode::concat(before_concat, after)
    }

    /// The rope without the `len` scalars that start at offset `i`.
    pub fn delete(&self, i: usize, len: usize) -> (r: RopeNode)
        requires
            self.wf(),
            i + len <= self@.len(),
        ensures
            r.wf(),
            r@ == removed(self@, i as int, len as int),
    {
        let (before, rest) = self.split(i);
        let (_, after) = rest.split(len);
        assert(after@ =~= self@.subrange(i + len, self@.len() as int));
        RopeNode::concat(before, after)
    }

    /// The rope holding the `len` scalars that start at offset `i`.
    pub fn report(&self, i: usize, len: usize) -> (r: RopeNode)
        requires
            self.wf(),
            i + len <= self@.len(),
        ensures
            r.wf(),
            r@ == self@.subrange(i as int, i + len),
    {
        let (_, rest) = self.split(i);
        let (middle, _) = rest.split(len);
        assert(middle@ =~= self@.subrange(i as int, i + len));
        middle
    }

    /// Appends to `out` the `len` scalars that start at offset `i`, reading only the
    /// leaves that overlap them.
    pub fn collect_range(&self, i: usize, len: usize, out: &mut Vec<char>)
        requires
            self.wf(),
            i + len <= self@.len(),
        ensures
            final(out)@ == old(out)@ + self@.subrange(i as int, i + len),
        decreases self,
    {
        match (&self.left, &self.right) {
            (Some(l), Some(r)) => {
                assert(self@ == l@ + r@);
                let w = self.weight;
                if i + len <= w {
                    l.collect_range(i, len, out);
                    assert(l@.subrange(i as int, i + len) =~= self@.subrange(i as int, i + len));
                } else if i >= w {
                    r.collect_range(i - w, len, out);
                    assert(r@.subrange(i - w, i - w + len) =~= self@.subrange(i as int, i + len));
                } else {
                    l.collect_range(i, w - i, out);
                    r.collect_range(0, len - (w - i), out);
                    assert(l@.subrange(i as int, w as int) + r@.subrange(0, len - (w - i))
                        =~= self@.subrange(i as int, i + len));
                }
            },
            _ => {
                assert(self@ == self.contents@);
                let end = i + len;
                let mut j: usize = i;
                while j < end
                    invariant
                        end == i + len,
                        self.contents@ == self@,
                        i + len <= self@.len(),
                        i <= j <= i + len,
                        out@ == old(out)@ + self@.subrange(i as int, j as int),
                    decreases end - j,
                {
                    out.push(self.contents[j]);
                    j = j + 1;
                    assert(out@ =~= old(out)@ + self@.subrange(i as int, j as int));
                }
            },
        }
    }

    /// The `len` scalars that start at offset `i`.
    pub fn substring(&self, i: usize, len: usize) -> (r: Vec<char>)
        requires
            self.wf(),
            i + len <= self@.len(),
        ensures
            r@ == self@.subrange(i as int, i + len),
    {
        let mut out: Vec<char> = Vec::new();
        self.collect_range(i, len, &mut out);
        assert(out@ =~= self@.subrange(i as int, i + len));
        out
    }

    /// The whole text of the rope.
    pub fn materialize(&self) -> (r: Vec<char>)
        requires
            self.wf(),
        ensures
            r@ == self@,
    {
        proof {
            self.lemma_wf_length();
        }
        let r = self.substring(0, self.length);
        assert(self@.subrange(0, self@.len() as int) =~= self@);
        r
    }

    /// The line that offset `off` lies on: the number of line breaks before it.
    pub fn line_of(&self, off: usize) -> (r: usize)
        requires
            self.wf(),
            off <= self@.len(),
        ensures
            r == newlines(self@.subrange(0, off as int)),
        decreases self,
    {
        proof {
            self.lemma_wf_length();
        }
        match (&self.left, &self.right) {
            (Some(l), Some(r)) => {
                assert(self@ == l@ + r@);
                proof {
                    l.lemma_wf_length();
                    r.lemma_wf_length();
                }
                if off <= self.weight {
                    assert(l@.subrange(0, off as int) =~= self@.subrange(0, off as int));
                    l.line_of(off)
                } else {
                    let k = r.line_of(off - self.weight);
                    proof {
                        lemma_newlines_concat(l@, r@.subrange(0, off - self.weight));
                        assert(l@ + r@.subrange(0, off - self.weight) =~= self@.subrange(0, off as int));
                        lemma_newlines_bound(self@.subrange(0, off as int));
                    }
                    l.lines + k
                }
            },
            _ => {
                assert(self@ == self.contents@);
                let mut cnt: usize = 0;
                let mut j: usize = 0;
                while j < off
                    invariant
                        self.contents@ == self@,
                        off <= self@.len(),
                        j <= off,
                        cnt == newlines(self@.subrange(0, j as int)),
                    decreases off - j,
                {
                    proof {
                        assert(self@.subrange(0, j + 1).drop_last() =~= self@.subrange(0, j as int));
                        lemma_newlines_bound(self@.subrange(0, j as int));
                    }
                    if self.contents[j] == '\n' {
                        cnt = cnt + 1;
                    }
                    j = j + 1;
                }
                cnt
            },
        }
    }

    /// The offset where line `n` starts, or `None` when the rope has fewer lines.
    pub fn offset_of_line(&self, n: usize) -> (r: Option<usize>)
        requires
            self.wf(),
        ensures
            n <= newlines(self@) ==> r is Some && starts_line(self@, r->0 as int, n as nat),
            n > newlines(self@) ==> r is None,
        decreases self,
    {
        proof {
            self.lemma_wf_length();
            assert(self@.subrange(0, 0) =~= Seq::<char>::empty());
        }
        if n > self.lines {
            return None;
        }
        if n == 0 {
            return Some(0);
        }
        match (&self.left, &self.right) {
            (Some(l), Some(r)) => {
                assert(self@ == l@ + r@);
                proof {
                    l.lemma_wf_length();
                    r.lemma_wf_length();
                    lemma_newlines_concat(l@, r@);
                }
                if n <= l.lines {
                    let o = l.offset_of_line(n);
                    let o = o.unwrap();
                    assert(l@.subrange(0, o as int) =~= self@.subrange(0, o as int));
                    Some(o)
                } else {
                    let o = r.offset_of_line(n - l.lines);
                    let o = o.unwrap();
                    proof {
                        assert(r@.subrange(0, 0) =~= Seq::<char>::empty());
                        lemma_newlines_concat(l@, r@.subrange(0, o as int));
                        assert(l@ + r@.subrange(0, o as int) =~= self@.subrange(0, self.weight + o));
                    }
                    Some(self.weight + o)
                }
            },
            _ => {
                assert(self@ == self.contents@);
                let mut cnt: usize = 0;
                let mut j: usize = 0;
                while j < self.contents.len()
                    invariant
                        self.contents@ == self@,
                        0 < n <= newlines(self@),
                        j <= self@.len(),
                        cnt == newlines(self@.subrange(0, j as int)),
                        cnt < n,
                    decreases self@.len() - j,
                {
                    proof {
                        assert(self@.subrange(0, j + 1).drop_last() =~= self@.subrange(0, j as int));
                    }
                    if self.contents[j] == '\n' {
                        cnt = cnt + 1;
                        if cnt == n {
                            return Some(j + 1);
                        }
                    }
                    j = j + 1;
                }
                assert(self@.subrange(0, j as int) =~= self@);
                None
            },
        }
    }

    /// Appends the leaves under `node` to `out`, from left to right; no text is copied.
    fn collect_leaves(node: &Rc<RopeNode>, out: &mut Vec<Rc<RopeNode>>)
        requires
            node.wf(),
            all_leaves(old(out)@),
        ensures
            all_leaves(final(out)@),
            joined(final(out)@) == joined(old(out)@) + (**node)@,
            final(out)@.len() == old(out)@.len() + node.leaf_count(),
        decreases **node,
    {
        match (&node.left, &node.right) {
            (Some(l), Some(r)) => {
                assert((**node)@ == l@ + r@);
                RopeNode::collect_leaves(l, out);
                RopeNode::collect_leaves(r, out);
                assert(joined(out@) =~= joined(old(out)@) + (**node)@);
            },
            _ => {
                let ghost before = out@;
                out.push(share(node));
                proof {
                    assert(out@.drop_last() =~= before);
                    assert forall|k: int| 0 <= k < out@.len() implies #[trigger] out@[k].wf()
                        && out@[k].depth() == 0 by {
                        if k < before.len() {
                            assert(out@[k] == before[k]);
                        }
                    }
                }
            },
        }
    }

    /// A balanced tree over the leaves `v[lo..hi]`.
    fn build(v: &Vec<Rc<RopeNode>>, lo: usize, hi: usize) -> (r: Rc<RopeNode>)
        requires
            lo < hi <= v@.len(),
            all_leaves(v@),
            joined(v@.subrange(lo as int, hi as int)).len() <= usize::MAX,
        ensures
            r.wf(),
            (*r)@ == joined(v@.subrange(lo as int, hi as int)),
            r.depth() <= ceil_log2((hi - lo) as nat),
            r.leaf_count() == hi - lo,
        decreases hi - lo,
    {
        if hi - lo == 1 {
            let ghost x = v@.subrange(lo as int, hi as int);
            proof {
                assert(x.drop_last() =~= Seq::<Rc<RopeNode>>::empty());
                assert(x.last() == v@[lo as int]);
                assert(v@[lo as int].wf());
                assert(joined(x.drop_last()) =~= Seq::<char>::empty());
                assert(joined(x) == joined(x.drop_last()) + (*x.last())@);
                assert(joined(x) =~= (*v@[lo as int])@);
            }
            share(&v[lo])
        } else {
            let mid = lo + (hi - lo) / 2;
            proof {
                lemma_joined_concat(v@.subrange(lo as int, mid as int), v@.subrange(mid as int, hi as int));
                assert(v@.subrange(lo as int, mid as int) + v@.subrange(mid as int, hi as int)
                    =~= v@.subrange(lo as int, hi as int));
            }
            let a = RopeNode::build(v, lo, mid);
            let b = RopeNode::build(v, mid, hi);
            proof {
                let n = (hi - lo) as nat;
                lemma_ceil_log2_mono((mid - lo) as nat, ((n + 1) / 2) as nat);
                lemma_ceil_log2_mono((hi - mid) as nat, ((n + 1) / 2) as nat);
            }
            Rc::new(RopeNode::join(a, b))
        }
    }
}

/// A persistent rope: edits build a new root and leave this one untouched, sharing
/// the subtrees they do not change. Total length and line breaks are cached.
pub struct Rope {
    root: Rc<RopeNode>,
    total_length: usize,
    total_lines: usize,
}

impl View for Rope {
    type V = Seq<char>;

    closed spec fn view(&self) -> Seq<char> {
        (*self.root)@
    }
}

impl Rope {
    /// Depth of the tree.
    pub closed spec fn depth(self) -> nat {
        self.root.depth()
    }

    /// Number of leaves of the tree.
    pub closed spec fn leaf_count(self) -> nat {
        self.root.leaf_count()
    }

    /// The root is well formed and the cached totals agree with its text.
    pub closed spec fn wf(self) -> bool {
        &&& self.root.wf()
        &&& self.total_length == self@.len()
        &&& self.total_lines == newlines(self@)
    }

    fn of_node(node: RopeNode) -> (r: Rope)
        requires
            node.wf(),
        ensures
            r.wf(),
            r@ == node@,
    {
        let total_length = node.length();
        let total_lines = node.line_breaks();
        Rope { root: Rc::new(node), total_length, total_lines }
    }

    /// The rope holding the scalars of `s`.
    pub fn from_text(s: String) -> (r: Rope)
        ensures
            r.wf(),
            r@ == s@,
    {
        Rope::of_node(RopeNode::new(s))
    }

    /// Another handle on this rope; no text is copied.
    pub fn snapshot(&self) -> (r: Rope)
        requires
            self.wf(),
        ensures
            r.wf(),
            r@ == self@,
    {
        Rope { root: share(&self.root), total_length: self.total_length, total_lines: self.total_lines }
    }

    /// The same text over a balanced tree of the same leaves: its depth is at most the
    /// base-two logarithm of the number of leaves, rounded up.
    pub fn rebalance(&self) -> (r: Rope)
        requires
            self.wf(),
        ensures
            r.wf(),
            r@ == self@,
            r.depth() <= ceil_log2(self.leaf_count()),
            r.leaf_count() == self.leaf_count(),
    {
        let mut leaves: Vec<Rc<RopeNode>> = Vec::new();
        RopeNode::collect_leaves(&self.root, &mut leaves);
        proof {
            self.root.lemma_leaf_count_pos();
        }
        assert(leaves@.subrange(0, leaves@.len() as int) =~= leaves@);
        assert(joined(Seq::<Rc<RopeNode>>::empty()) + self@ =~= self@);
        let root = RopeNode::build(&leaves, 0, leaves.len());
        Rope { root, total_length: self.total_length, total_lines: self.total_lines }
    }

    /// The number of scalars.
    pub fn length(&self) -> (r: usize)
        requires
            self.wf(),
        ensures
            r == self@.len(),
    {
        self.total_length
    }

    /// The number of line breaks.
    pub fn line_breaks(&self) -> (r: usize)
        requires
            self.wf(),
        ensures
            r == newlines(self@),
    {
        self.total_lines
    }

    /// The scalar at offset `i`, or `None` when `i` is past the end.
    pub fn char_at(&self, i: usize) -> (r: Option<char>)
        requires
            self.wf(),
        ensures
            i < self@.len() ==> r == Some(self@[i as int]),
            i >= self@.len() ==> r is None,
    {
        self.root.index(i)
    }

    /// The ropes before offset `i` and from `i` on.
    pub fn split(&self, i: usize) -> (r: (Rope, Rope))
        requires
            self.wf(),
            i <= self@.len(),
        ensures
            r.0.wf(),
            r.1.wf(),
            r.0@ == self@.subrange(0, i as int),
            r.1@ == self@.subrange(i as int, self@.len() as int),
    {
        let (a, b) = self.root.split(i);
        (Rope::of_node(a), Rope::of_node(b))
    }

    /// The rope holding `a` followed by `b`; both are shared, not copied.
    pub fn concat(a: &Rope, b: &Rope) -> (r: Rope)
        requires
            a.wf(),
            b.wf(),
            a@.len() + b@.len() <= usize::MAX,
        ensures
            r.wf(),
            r@ == a@ + b@,
    {
        Rope::of_node(RopeNode::join(share(&a.root), share(&b.root)))
    }

    /// The rope with `text` placed at offset `i`.
    pub fn insert(&self, i: usize, text: &Rope) -> (r: Rope)
        requires
            self.wf(),
            text.wf(),
            i <= self@.len(),
            self@.len() + text@.len() <= usize::MAX,
        ensures
            r.wf(),
            r@ == spliced(self@, i as int, text@),
    {
        let (before, after) = self.root.split(i);
        let front = RopeNode::join(Rc::new(before), share(&text.root));
        Rope::of_node(RopeNode::join(Rc::new(front), Rc::new(after)))
    }

    /// The rope without the `len` scalars that start at offset `i`.
    pub fn delete(&self, i: usize, len: usize) -> (r: Rope)
        requires
            self.wf(),
            i + len <= self@.len(),
        ensures
            r.wf(),
            r@ == removed(self@, i as int, len as int),
    {
        Rope::of_node(self.root.delete(i, len))
    }

    /// The text of the `len` scalars that start at offset `i`.
    pub fn substring(&self, i: usize, len: usize) -> (r: String)
        requires
            self.wf(),
            i + len <= self@.len(),
        ensures
            r@ == self@.subrange(i as int, i + len),
    {
        string_of(&self.root.substring(i, len))
    }

    /// The whole text.
    pub fn materialize(&self) -> (r: String)
        requires
            self.wf(),
        ensures
            r@ == self@,
    {
        string_of(&self.root.materialize())
    }

    /// The line that offset `off` lies on.
    pub fn line_of(&self, off: usize) -> (r: usize)
        requires
            self.wf(),
            off <= self@.len(),
        ensures
            r == newlines(self@.subrange(0, off as int)),
    {
        self.root.line_of(off)
    }

    /// The offset where line `n` starts, or `None` when there are fewer lines.
    pub fn offset_of_line(&self, n: usize) -> (r: Option<usize>)
        requires
            self.wf(),
        ensures
            n <= newlines(self@) ==> r is Some && starts_line(self@, r->0 as int, n as nat),
            n > newlines(self@) ==> r is None,
    {
        self.root.offset_of_line(n)
    }

    /// The offset of column `col` of line `line`, held at the end of that line, or
    /// `None` when there are fewer lines.
    pub fn offset_at(&self, line: usize, col: usize) -> (r: Option<usize>)
        requires
            self.wf(),
        ensures
            line <= newlines(self@) ==> r is Some && at_column(self@, line as nat, col as int, r->0 as int),
            line > newlines(self@) ==> r is None,
    {
        let start = match self.root.offset_of_line(line) {
            Some(o) => o,
            None => {
                return None;
            },
        };
        let len = self.total_length;
        let mut o: usize = start;
        loop
            invariant
                len == self@.len(),
                self.wf(),
                starts_line(self@, start as int, line as nat),
                start <= o <= len,
                o - start <= col,
                forall|k: int| start <= k < o ==> self@[k] != '\n',
            ensures
                start <= o <= len,
                o - start <= col,
                forall|k: int| start <= k < o ==> self@[k] != '\n',
                o - start == col || o == len || self@[o as int] == '\n',
            decreases len - o,
        {
            if o - start == col || o == len {
                break;
            }
            match self.root.index(o) {
                Some(c) => {
                    if c == '\n' {
                        break;
                    }
                },
                None => {
                    break;
                },
            }
            o = o + 1;
        }
        assert(starts_line(self@, start as int, line as nat));
        Some(o)
    }
}

} // verus!
