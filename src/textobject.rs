use vstd::prelude::*;
use crate::buffer::{Buffer, Mark, MarkEntry, mark_pos, min_nat};

verus! {

/// The unit a text object counts in.
#[derive(Clone, Copy, Debug, PartialEq, Eq, Structural)]
pub enum Kind {
    /// Single characters.
    Char,
    /// The stretch from the start of the line; the count is not used.
    StartOfLine,
    /// The stretch to the end of the line; the count is not used.
    EndOfLine,
    /// Words: runs of characters other than spaces, tabs and newlines.
    Word,
}

/// Where a text object lies relative to a mark, or at a fixed position.
#[derive(Clone, Copy, Debug, PartialEq, Eq, Structural)]
pub enum Offset {
    Forward(usize, Mark),
    Backward(usize, Mark),
    Absolute(usize),
}

/// A unit of text and where it lies.
#[derive(Clone, Copy, Debug, PartialEq, Eq, Structural)]
pub struct TextObject {
    pub kind: Kind,
    pub offset: Offset,
}

/// A half-open stretch of positions, `start` up to `end`.
#[derive(Clone, Copy, Debug, PartialEq, Eq, Structural)]
pub struct Range {
    pub start: usize,
    pub end: usize,
}

/// The start of the line holding position `p`.
pub open spec fn line_start(t: Seq<char>, p: nat) -> nat
    decreases p,
{
    if p == 0 {
        0
    } else if p <= t.len() && t[p - 1] == '\n' {
        p
    } else {
        line_start(t, (p - 1) as nat)
    }
}

/// The end of the line holding position `p` (the position of its newline, or the end of the text).
pub open spec fn line_end(t: Seq<char>, p: nat) -> nat
    decreases t.len() - p,
{
    if p >= t.len() {
        t.len()
    } else if t[p as int] == '\n' {
        p
    } else {
        line_end(t, p + 1)
    }
}

pub open spec fn is_blank(c: char) -> bool {
    c == ' ' || c == '\t' || c == '\n'
}

/// The first position from `p` on that holds no blank (or the end).
pub open spec fn skip_blanks(t: Seq<char>, p: nat) -> nat
    decreases t.len() - p,
{
    if p >= t.len() {
        t.len()
    } else if is_blank(t[p as int]) {
        skip_blanks(t, p + 1)
    } else {
        p
    }
}

/// The first position from `p` on that holds a blank (or the end).
pub open spec fn skip_word(t: Seq<char>, p: nat) -> nat
    decreases t.len() - p,
{
    if p >= t.len() {
        t.len()
    } else if !is_blank(t[p as int]) {
        skip_word(t, p + 1)
    } else {
        p
    }
}

/// The position just past the `n`-th word after `p`.
pub open spec fn words_forward(t: Seq<char>, p: nat, n: nat) -> nat
    decreases n,
{
    if n == 0 {
        p
    } else {
        words_forward(t, skip_word(t, skip_blanks(t, p)), (n - 1) as nat)
    }
}

/// The last position up to `p` that has no blank just before it (or the start).
pub open spec fn back_blanks(t: Seq<char>, p: nat) -> nat
    decreases p,
{
    if p == 0 || p > t.len() {
        p
    } else if is_blank(t[p - 1]) {
        back_blanks(t, (p - 1) as nat)
    } else {
        p
    }
}

/// The last position up to `p` that has a blank just before it (or the start).
pub open spec fn back_word(t: Seq<char>, p: nat) -> nat
    decreases p,
{
    if p == 0 || p > t.len() {
        p
    } else if !is_blank(t[p - 1]) {
        back_word(t, (p - 1) as nat)
    } else {
        p
    }
}

/// The start of the `n`-th word before `p`.
pub open spec fn words_backward(t: Seq<char>, p: nat, n: nat) -> nat
    decreases n,
{
    if n == 0 {
        p
    } else {
        words_backward(t, back_word(t, back_blanks(t, p)), (n - 1) as nat)
    }
}

/// The range of `kind` that starts at `p` and goes forward `n` units.
pub open spec fn forward_range(t: Seq<char>, kind: Kind, p: nat, n: nat) -> (nat, nat) {
    match kind {
        Kind::Char => (p, min_nat((p + n) as nat, t.len())),
        Kind::StartOfLine => (line_start(t, p), p),
        Kind::EndOfLine => (p, line_end(t, p)),
        Kind::Word => (p, words_forward(t, p, n)),
    }
}

/// The range of `kind` that ends at `p` and goes back `n` units.
pub open spec fn backward_range(t: Seq<char>, kind: Kind, p: nat, n: nat) -> (nat, nat) {
    match kind {
        Kind::Char => (if p >= n { (p - n) as nat } else { 0 }, p),
        Kind::StartOfLine => (line_start(t, p), p),
        Kind::EndOfLine => (p, line_end(t, p)),
        Kind::Word => (words_backward(t, p, n), p),
    }
}

/// The range a text object covers in the text `t` with marks `marks`, where
/// `from` is the position an absolute offset is measured from. `None` where
/// the mark it names is not in the buffer.
pub open spec fn object_range(
    t: Seq<char>,
    marks: Seq<crate::buffer::MarkEntry>,
    from: nat,
    obj: TextObject,
) -> Option<(nat, nat)> {
    match obj.offset {
        Offset::Forward(n, m) => match mark_pos(marks, m) {
            Some(p) => Some(forward_range(t, obj.kind, p, n as nat)),
            None => None,
        },
        Offset::Backward(n, m) => match mark_pos(marks, m) {
            Some(p) => Some(backward_range(t, obj.kind, p, n as nat)),
            None => None,
        },
        Offset::Absolute(q) => {
            let q2 = min_nat(q as nat, t.len());
            if q2 <= from {
                Some((q2, from))
            } else {
                Some((from, q2))
            }
        },
    }
}

pub proof fn lemma_line_bounds(t: Seq<char>, p: nat)
    requires
        p <= t.len(),
    ensures
        line_start(t, p) <= p,
        p <= line_end(t, p) <= t.len(),
{
    if p > 0 && !(t[p - 1] == '\n') {
        lemma_line_start_le(t, (p - 1) as nat);
    }
    lemma_line_end_bounds(t, p);
}

proof fn lemma_line_start_le(t: Seq<char>, p: nat)
    ensures
        line_start(t, p) <= p,
    decreases p,
{
    if p > 0 {
        lemma_line_start_le(t, (p - 1) as nat);
    }
}

proof fn lemma_line_end_bounds(t: Seq<char>, p: nat)
    requires
        p <= t.len(),
    ensures
        p <= line_end(t, p) <= t.len(),
    decreases t.len() - p,
{
    if p < t.len() && t[p as int] != '\n' {
        lemma_line_end_bounds(t, p + 1);
    }
}

proof fn lemma_skip_bounds(t: Seq<char>, p: nat)
    requires
        p <= t.len(),
    ensures
        p <= skip_blanks(t, p) <= t.len(),
        p <= skip_word(t, p) <= t.len(),
    decreases t.len() - p,
{
    if p < t.len() {
        lemma_skip_bounds(t, p + 1);
    }
}

proof fn lemma_back_bounds(t: Seq<char>, p: nat)
    requires
        p <= t.len(),
    ensures
        back_blanks(t, p) <= p,
        back_word(t, p) <= p,
    decreases p,
{
    if p > 0 {
        lemma_back_bounds(t, (p - 1) as nat);
    }
}

proof fn lemma_words_bounds(t: Seq<char>, p: nat, n: nat)
    requires
        p <= t.len(),
    ensures
        p <= words_forward(t, p, n) <= t.len(),
        words_backward(t, p, n) <= p,
    decreases n,
{
    if n > 0 {
        lemma_skip_bounds(t, p);
        lemma_skip_bounds(t, skip_blanks(t, p));
        lemma_back_bounds(t, p);
        lemma_words_bounds(t, skip_word(t, skip_blanks(t, p)), (n - 1) as nat);
        lemma_back_bounds(t, back_blanks(t, p));
        lemma_words_bounds(t, back_word(t, back_blanks(t, p)), (n - 1) as nat);
    }
}

proof fn lemma_words_at_end(t: Seq<char>, n: nat)
    ensures
        words_forward(t, t.len(), n) == t.len(),
    decreases n,
{
    if n > 0 {
        lemma_words_at_end(t, (n - 1) as nat);
    }
}

proof fn lemma_words_at_start(t: Seq<char>, n: nat)
    ensures
        words_backward(t, 0, n) == 0,
    decreases n,
{
    if n > 0 {
        lemma_words_at_start(t, (n - 1) as nat);
    }
}

/// The position just past the `n`-th word after `p`.
pub fn find_words_forward(t: &Vec<char>, p: usize, n: usize) -> (r: usize)
    requires
        p <= t@.len(),
    ensures
        r == words_forward(t@, p as nat, n as nat),
{
    let mut cur: usize = p;
    let mut k: usize = 0;
    while k < n && cur < t.len()
        invariant
            cur <= t@.len(),
            k <= n,
            words_forward(t@, cur as nat, (n - k) as nat) == words_forward(t@, p as nat, n as nat),
        decreases n - k,
    {
        let ghost start = cur;
        while cur < t.len() && (t[cur] == ' ' || t[cur] == '\t' || t[cur] == '\n')
            invariant
                start <= cur <= t@.len(),
                skip_blanks(t@, cur as nat) == skip_blanks(t@, start as nat),
            decreases t@.len() - cur,
        {
            cur = cur + 1;
        }
        let ghost mid = cur;
        while cur < t.len() && !(t[cur] == ' ' || t[cur] == '\t' || t[cur] == '\n')
            invariant
                mid <= cur <= t@.len(),
                skip_word(t@, cur as nat) == skip_word(t@, mid as nat),
            decreases t@.len() - cur,
        {
            cur = cur + 1;
        }
        k = k + 1;
    }
    proof {
        if k < n {
            lemma_words_at_end(t@, (n - k) as nat);
        }
    }
    cur
}

/// The start of the `n`-th word before `p`.
pub fn find_words_backward(t: &Vec<char>, p: usize, n: usize) -> (r: usize)
    requires
        p <= t@.len(),
    ensures
        r == words_backward(t@, p as nat, n as nat),
{
    let mut cur: usize = p;
    let mut k: usize = 0;
    while k < n && cur > 0
        invariant
            cur <= t@.len(),
            k <= n,
            words_backward(t@, cur as nat, (n - k) as nat) == words_backward(t@, p as nat, n as nat),
        decreases n - k,
    {
        let ghost start = cur;
        while cur > 0 && (t[cur - 1] == ' ' || t[cur - 1] == '\t' || t[cur - 1] == '\n')
            invariant
                cur <= start <= t@.len(),
                back_blanks(t@, cur as nat) == back_blanks(t@, start as nat),
            decreases cur,
        {
            cur = cur - 1;
        }
        let ghost mid = cur;
        while cur > 0 && !(t[cur - 1] == ' ' || t[cur - 1] == '\t' || t[cur - 1] == '\n')
            invariant
                cur <= mid <= t@.len(),
                back_word(t@, cur as nat) == back_word(t@, mid as nat),
            decreases cur,
        {
            cur = cur - 1;
        }
        k = k + 1;
    }
    proof {
        if k < n {
            lemma_words_at_start(t@, (n - k) as nat);
        }
    }
    cur
}

/// The start of the line holding position `p`.
pub fn find_line_start(t: &Vec<char>, p: usize) -> (r: usize)
    requires
        p <= t@.len(),
    ensures
        r == line_start(t@, p as nat),
{
    let mut i: usize = p;
    while i > 0 && t[i - 1] != '\n'
        invariant
            i <= p <= t@.len(),
            line_start(t@, i as nat) == line_start(t@, p as nat),
        decreases i,
    {
        i = i - 1;
    }
    i
}

/// The end of the line holding position `p`.
pub fn find_line_end(t: &Vec<char>, p: usize) -> (r: usize)
    requires
        p <= t@.len(),
    ensures
        r == line_end(t@, p as nat),
{
    let mut i: usize = p;
    while i < t.len() && t[i] != '\n'
        invariant
            p <= i <= t@.len(),
            line_end(t@, i as nat) == line_end(t@, p as nat),
        decreases t@.len() - i,
    {
        i = i + 1;
    }
    i
}

/// The range of text that `obj` covers in `buf`; an absolute offset is
/// measured from `from`. Positions past the text are clamped to it; `None`
/// where `obj` names a mark that the buffer does not have.
pub fn resolve(buf: &Buffer, from: usize, obj: TextObject) -> (r: Option<Range>)
    requires
        buf.wf(),
        from <= buf@.text.len(),
    ensures
        match r {
            Some(g) => object_range(buf@.text, buf@.marks, from as nat, obj) == Some(
                (g.start as nat, g.end as nat),
            ),
            None => object_range(buf@.text, buf@.marks, from as nat, obj) is None,
        },
        r matches Some(g) ==> g.start <= g.end <= buf@.text.len(),
{
    let t = buf.text();
    let len = t.len();
    let p = match obj.offset {
        Offset::Forward(_, m) => buf.mark_position(m),
        Offset::Backward(_, m) => buf.mark_position(m),
        Offset::Absolute(q) => Some(
            if q <= len {
                q
            } else {
                len
            },
        ),
    };
    let p = match p {
        Some(p) => p,
        None => {
            return None;
        },
    };
    proof {
        if !(obj.offset is Absolute) {
            let m = match obj.offset {
                Offset::Forward(_, m) => m,
                Offset::Backward(_, m) => m,
                Offset::Absolute(_) => Mark::Cursor(0),
            };
            let i = crate::buffer::mark_index(buf@.marks, m)->0;
            assert(crate::buffer::is_first_index(buf@.marks, m, i));
            buf.lemma_wf();
            assert(buf@.marks[i].pos <= len);
        }
    }
    let (start, end) = match obj.offset {
        Offset::Absolute(_) => if p <= from {
            (p, from)
        } else {
            (from, p)
        },
        Offset::Forward(n, _) => match obj.kind {
            Kind::Char => (p, if n <= len - p {
                p + n
            } else {
                len
            }),
            Kind::StartOfLine => (find_line_start(t, p), p),
            Kind::EndOfLine => (p, find_line_end(t, p)),
            Kind::Word => (p, find_words_forward(t, p, n)),
        },
        Offset::Backward(n, _) => match obj.kind {
            Kind::Char => (if p >= n {
                p - n
            } else {
                0
            }, p),
            Kind::StartOfLine => (find_line_start(t, p), p),
            Kind::EndOfLine => (p, find_line_end(t, p)),
            Kind::Word => (find_words_backward(t, p, n), p),
        },
    };
    proof {
        lemma_line_bounds(t@, p as nat);
        match obj.offset {
            Offset::Forward(n, _) => lemma_words_bounds(t@, p as nat, n as nat),
            Offset::Backward(n, _) => lemma_words_bounds(t@, p as nat, n as nat),
            Offset::Absolute(_) => {},
        }
    }
    Some(Range { start, end })
}

/// Going back `n` characters from a mark and going forward `n` characters
/// from it give two adjacent ranges, the first ending where the second
/// starts, that together cover the text from `n` before the mark to `n`
/// after it (both clamped to the text).
pub proof fn lemma_backward_forward_adjacent(
    t: Seq<char>,
    marks: Seq<MarkEntry>,
    from: nat,
    m: Mark,
    n: usize,
)
    requires
        crate::buffer::marks_within(marks, t.len()),
        mark_pos(marks, m) is Some,
    ensures
        ({
            let p = mark_pos(marks, m)->0;
            let b = object_range(t, marks, from, TextObject { kind: Kind::Char, offset: Offset::Backward(n, m) })->0;
            let f = object_range(t, marks, from, TextObject { kind: Kind::Char, offset: Offset::Forward(n, m) })->0;
            &&& b.1 == f.0 == p
            &&& b.0 <= b.1 <= f.1 <= t.len()
            &&& b.0 == if p >= n { p - n } else { 0 }
            &&& f.1 == min_nat((p + n) as nat, t.len())
            &&& t.subrange(b.0 as int, b.1 as int) + t.subrange(f.0 as int, f.1 as int) == t.subrange(
                b.0 as int,
                f.1 as int,
            )
        }),
{
    let i = crate::buffer::mark_index(marks, m)->0;
    assert(crate::buffer::is_first_index(marks, m, i));
    assert(marks[i].pos <= t.len());
    let p = mark_pos(marks, m)->0;
    let lo: nat = if p >= n { (p - n) as nat } else { 0 };
    let hi = min_nat((p + n) as nat, t.len());
    assert(t.subrange(lo as int, p as int) + t.subrange(p as int, hi as int) =~= t.subrange(
        lo as int,
        hi as int,
    ));
}

} // verus!
