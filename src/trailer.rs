//! Trailers: the `Key: value` lines of the last paragraph of a commit
//! description.
//!
//! After trailing whitespace is trimmed, the description is cut into lines at
//! each `\n`. The last paragraph is the lines after the last blank line (a
//! line of whitespace only). It is a trailer block when there is such a blank
//! line and every line of the paragraph is a trailer line: a non-empty key of
//! ASCII letters, digits and `-`, then `:`, then the value, whose surrounding
//! whitespace is trimmed. Any other description has no trailers.
use vstd::prelude::*;
use crate::repo_path::chars_of;

verus! {

/// Unicode's `White_Space` characters.
pub open spec fn is_ws(c: char) -> bool {
    let u = c as u32;
    (0x09 <= u && u <= 0x0d) || u == 0x20 || u == 0x85 || u == 0xa0 || u == 0x1680 || (0x2000 <= u
        && u <= 0x200a) || u == 0x2028 || u == 0x2029 || u == 0x202f || u == 0x205f || u == 0x3000
}

pub fn is_whitespace_char(c: char) -> (r: bool)
    ensures
        r == is_ws(c),
{
    let u = c as u32;
    (0x09 <= u && u <= 0x0d) || u == 0x20 || u == 0x85 || u == 0xa0 || u == 0x1680 || (0x2000 <= u
        && u <= 0x200a) || u == 0x2028 || u == 0x2029 || u == 0x202f || u == 0x205f || u == 0x3000
}

/// `s` without its trailing whitespace.
pub open spec fn trim_end(s: Seq<char>) -> Seq<char>
    decreases s.len(),
{
    if s.len() > 0 && is_ws(s.last()) {
        trim_end(s.drop_last())
    } else {
        s
    }
}

/// `s` without its leading whitespace.
pub open spec fn trim_start(s: Seq<char>) -> Seq<char>
    decreases s.len(),
{
    if s.len() > 0 && is_ws(s[0]) {
        trim_start(s.drop_first())
    } else {
        s
    }
}

pub open spec fn trim(s: Seq<char>) -> Seq<char> {
    trim_start(trim_end(s))
}

/// The lines of `s`: the pieces between its `\n` characters.
pub open spec fn split_lines(s: Seq<char>) -> Seq<Seq<char>>
    decreases s.len(),
{
    if s.len() == 0 {
        seq![Seq::empty()]
    } else {
        let r = split_lines(s.drop_last());
        if s.last() == '\n' {
            r.push(Seq::empty())
        } else {
            r.update(r.len() - 1, r.last().push(s.last()))
        }
    }
}

pub open spec fn is_blank(l: Seq<char>) -> bool {
    forall|i: int| 0 <= i < l.len() ==> is_ws(#[trigger] l[i])
}

/// The index of the last blank line, or -1 where there is none.
pub open spec fn last_blank(ls: Seq<Seq<char>>) -> int
    decreases ls.len(),
{
    if ls.len() == 0 {
        -1
    } else if is_blank(ls.last()) {
        ls.len() - 1
    } else {
        last_blank(ls.drop_last())
    }
}

pub open spec fn is_key_char(c: char) -> bool {
    ('a' <= c && c <= 'z') || ('A' <= c && c <= 'Z') || ('0' <= c && c <= '9') || c == '-'
}

/// A trailer line: a non-empty run of key characters, then `:`.
pub open spec fn key_len(l: Seq<char>, c: int) -> bool {
    0 < c < l.len() && l[c] == ':' && forall|i: int| 0 <= i < c ==> is_key_char(#[trigger] l[i])
}

pub open spec fn is_trailer_line(l: Seq<char>) -> bool {
    exists|c: int| key_len(l, c)
}

/// The key and the trimmed value of a trailer line.
pub open spec fn line_trailer(l: Seq<char>) -> (Seq<char>, Seq<char>) {
    let c = choose|c: int| key_len(l, c);
    (l.subrange(0, c), trim(l.subrange(c + 1, l.len() as int)))
}

/// The trailers of a description, in order, as (key, value) pairs.
pub open spec fn description_trailers(s: Seq<char>) -> Seq<(Seq<char>, Seq<char>)> {
    let ls = split_lines(trim_end(s));
    let b = last_blank(ls);
    let block = ls.subrange(b + 1, ls.len() as int);
    if b < 0 || !(forall|i: int| 0 <= i < block.len() ==> is_trailer_line(#[trigger] block[i])) {
        Seq::empty()
    } else {
        block.map_values(|l: Seq<char>| line_trailer(l))
    }
}

/// One trailer: its key and its value.
#[derive(Debug, Clone, PartialEq, Eq)]
pub struct Trailer {
    pub key: String,
    pub value: String,
}

impl View for Trailer {
    type V = (Seq<char>, Seq<char>);

    open spec fn view(&self) -> (Seq<char>, Seq<char>) {
        (self.key@, self.value@)
    }
}

/// Where `s[from..end]` ends once its trailing whitespace is trimmed.
pub fn trimmed_end(s: &Vec<char>, from: usize, end: usize) -> (r: usize)
    requires
        from <= end <= s@.len(),
    ensures
        from <= r <= end,
        s@.subrange(from as int, r as int) == trim_end(s@.subrange(from as int, end as int)),
    decreases end,
{
    if end > from && is_whitespace_char(s[end - 1]) {
        assert(s@.subrange(from as int, end as int).drop_last() =~= s@.subrange(from as int, end - 1));
        trimmed_end(s, from, end - 1)
    } else {
        end
    }
}

/// The start of `s[from..to]` without its leading whitespace.
pub fn trimmed_start(s: &Vec<char>, from: usize, to: usize) -> (r: usize)
    requires
        from <= to <= s@.len(),
    ensures
        from <= r <= to,
        s@.subrange(r as int, to as int) == trim_start(s@.subrange(from as int, to as int)),
    decreases to - from,
{
    if from < to && is_whitespace_char(s[from]) {
        assert(s@.subrange(from as int, to as int).drop_first() =~= s@.subrange(from + 1, to as int));
        trimmed_start(s, from + 1, to)
    } else {
        from
    }
}

/// The lines of `s[0..n]` as index ranges.
fn line_ranges(s: &Vec<char>, n: usize) -> (r: Vec<(usize, usize)>)
    requires
        n <= s@.len(),
    ensures
        r@.len() == split_lines(s@.subrange(0, n as int)).len(),
        forall|i: int| #![trigger r@[i]] 0 <= i < r@.len() ==> {
            &&& r@[i].0 <= r@[i].1 <= n
            &&& s@.subrange(r@[i].0 as int, r@[i].1 as int) == split_lines(s@.subrange(0, n as int))[i]
        },
{
    let mut r: Vec<(usize, usize)> = Vec::new();
    let mut start: usize = 0;
    let mut i: usize = 0;
    while i < n
        invariant
            n <= s@.len(),
            start <= i <= n,
            r@.len() + 1 == split_lines(s@.subrange(0, i as int)).len(),
            forall|j: int| #![trigger r@[j]] 0 <= j < r@.len() ==> {
                &&& r@[j].0 <= r@[j].1 <= i
                &&& s@.subrange(r@[j].0 as int, r@[j].1 as int) == split_lines(s@.subrange(0, i as int))[j]
            },
            s@.subrange(start as int, i as int) == split_lines(s@.subrange(0, i as int)).last(),
        decreases n - i,
    {
        let ghost before = split_lines(s@.subrange(0, i as int));
        assert(s@.subrange(0, i + 1).drop_last() =~= s@.subrange(0, i as int));
        let ghost after = split_lines(s@.subrange(0, i + 1));
        assert(after == if s@[i as int] == '\n' {
            before.push(Seq::empty())
        } else {
            before.update(before.len() - 1, before.last().push(s@[i as int]))
        });
        assert(forall|j: int| 0 <= j < r@.len() ==> #[trigger] after[j] == before[j]);
        let ghost old_r = r@;
        let ghost old_start = start;
        if s[i] == '\n' {
            assert(after[r@.len() as int] == before.last());
            r.push((start, i));
            start = i + 1;
            assert(s@.subrange(start as int, i + 1) =~= Seq::<char>::empty());
        } else {
            assert(s@.subrange(start as int, i + 1) =~= s@.subrange(start as int, i as int).push(s@[i as int]));
        }
        assert forall|j: int| #![trigger r@[j]] 0 <= j < r@.len() implies {
            &&& r@[j].0 <= r@[j].1 <= i + 1
            &&& s@.subrange(r@[j].0 as int, r@[j].1 as int) == after[j]
        } by {
            if j < old_r.len() {
                assert(r@[j] == old_r[j]);
                assert(after[j] == before[j]);
            } else {
                assert(r@[j] == (old_start, i));
            }
        }
        i = i + 1;
        assert(split_lines(s@.subrange(0, i as int)) == after);
    }
    r.push((start, n));
    r
}

/// Whether `s[from..to]` is a blank line.
fn is_blank_range(s: &Vec<char>, from: usize, to: usize) -> (r: bool)
    requires
        from <= to <= s@.len(),
    ensures
        r == is_blank(s@.subrange(from as int, to as int)),
{
    let mut i: usize = from;
    while i < to
        invariant
            from <= i <= to <= s@.len(),
            forall|j: int| from <= j < i ==> is_ws(#[trigger] s@[j]),
        decreases to - i,
    {
        if !is_whitespace_char(s[i]) {
            assert(s@.subrange(from as int, to as int)[i - from] == s@[i as int]);
            return false;
        }
        i = i + 1;
    }
    assert forall|j: int| 0 <= j < to - from implies is_ws(#[trigger] s@.subrange(from as int, to as int)[j]) by {
        assert(s@.subrange(from as int, to as int)[j] == s@[from + j]);
    }
    true
}

/// Where the key of the trailer line `s[from..to]` ends, if it is one.
fn trailer_key_end(s: &Vec<char>, from: usize, to: usize) -> (r: Option<usize>)
    requires
        from <= to <= s@.len(),
    ensures
        r is Some <==> is_trailer_line(s@.subrange(from as int, to as int)),
        r matches Some(c) ==> from < c < to && key_len(s@.subrange(from as int, to as int), c - from),
{
    let ghost l = s@.subrange(from as int, to as int);
    let mut i: usize = from;
    while i < to
        invariant
            from <= i <= to <= s@.len(),
            l == s@.subrange(from as int, to as int),
            forall|j: int| from <= j < i ==> is_key_char(#[trigger] s@[j]),
        decreases to - i,
    {
        let c = s[i];
        if c == ':' {
            if i == from {
                proof {
                    assert forall|k: int| !key_len(l, k) by {
                        if key_len(l, k) && k > 0 {
                            assert(is_key_char(l[0]));
                        }
                    }
                }
                return None;
            }
            proof {
                assert forall|j: int| 0 <= j < i - from implies is_key_char(#[trigger] l[j]) by {
                    assert(l[j] == s@[from + j]);
                }
                assert(key_len(l, i - from));
            }
            return Some(i);
        }
        let is_key = ('a' <= c && c <= 'z') || ('A' <= c && c <= 'Z') || ('0' <= c && c <= '9') || c
            == '-';
        if !is_key {
            proof {
                assert forall|k: int| !key_len(l, k) by {
                    if key_len(l, k) {
                        if k > i - from {
                            assert(l[i - from] == c);
                        } else if k < i - from {
                            assert(l[k] == s@[from + k]);
                        } else {
                            assert(l[k] == c);
                        }
                    }
                }
            }
            return None;
        }
        i = i + 1;
    }
    proof {
        assert forall|k: int| !key_len(l, k) by {
            if key_len(l, k) {
                assert(l[k] == s@[from + k]);
            }
        }
    }
    None
}

/// Lines joined back, each followed by a newline.
pub open spec fn join_lines(ls: Seq<Seq<char>>) -> Seq<char>
    decreases ls.len(),
{
    if ls.len() == 0 {
        Seq::empty()
    } else {
        join_lines(ls.drop_last()) + ls.last() + seq!['\n']
    }
}

pub open spec fn no_newline(l: Seq<char>) -> bool {
    forall|i: int| 0 <= i < l.len() ==> #[trigger] l[i] != '\n'
}

pub proof fn lemma_split_len(s: Seq<char>)
    ensures
        split_lines(s).len() >= 1,
    decreases s.len(),
{
    if s.len() > 0 {
        lemma_split_len(s.drop_last());
    }
}

/// Splitting at a newline splits the two sides apart.
pub proof fn lemma_split_at_newline(x: Seq<char>, y: Seq<char>)
    ensures
        split_lines(x + seq!['\n'] + y) == split_lines(x) + split_lines(y),
    decreases y.len(),
{
    let s = x + seq!['\n'] + y;
    if y.len() == 0 {
        assert(s.drop_last() =~= x);
        assert(split_lines(x) + split_lines(y) =~= split_lines(x).push(Seq::empty()));
    } else {
        let y0 = y.drop_last();
        lemma_split_at_newline(x, y0);
        lemma_split_len(y0);
        assert(s.drop_last() =~= x + seq!['\n'] + y0);
        let a = split_lines(x);
        let b = split_lines(y0);
        if y.last() == '\n' {
            assert((a + b).push(Seq::empty()) =~= a + b.push(Seq::empty()));
        } else {
            assert((a + b).update((a + b).len() - 1, (a + b).last().push(y.last())) =~= a + b.update(
                b.len() - 1,
                b.last().push(y.last()),
            ));
        }
    }
}

/// A piece of text without newlines is one line.
pub proof fn lemma_split_single(l: Seq<char>)
    requires
        no_newline(l),
    ensures
        split_lines(l) == seq![l],
    decreases l.len(),
{
    if l.len() == 0 {
        assert(l =~= Seq::<char>::empty());
    } else {
        let l0 = l.drop_last();
        assert(no_newline(l0)) by {
            assert forall|i: int| 0 <= i < l0.len() implies #[trigger] l0[i] != '\n' by {
                assert(l0[i] == l[i]);
            }
        }
        lemma_split_single(l0);
        assert(l[l.len() - 1] != '\n');
        assert(l0.push(l.last()) =~= l);
        assert(seq![l0].update(0, l0.push(l.last())) =~= seq![l]);
    }
}

/// Joined lines followed by one more piece split back into those lines.
pub proof fn lemma_split_join(ls: Seq<Seq<char>>, l: Seq<char>)
    requires
        forall|i: int| 0 <= i < ls.len() ==> no_newline(#[trigger] ls[i]),
        no_newline(l),
    ensures
        split_lines(join_lines(ls) + l) == ls.push(l),
    decreases ls.len(),
{
    if ls.len() == 0 {
        assert(join_lines(ls) + l =~= l);
        lemma_split_single(l);
        assert(ls.push(l) =~= seq![l]);
    } else {
        let init = ls.drop_last();
        assert forall|i: int| 0 <= i < init.len() implies no_newline(#[trigger] init[i]) by {
            assert(init[i] == ls[i]);
        }
        assert(no_newline(ls.last()));
        lemma_split_join(init, ls.last());
        assert(join_lines(ls) + l =~= (join_lines(init) + ls.last()) + seq!['\n'] + l);
        lemma_split_at_newline(join_lines(init) + ls.last(), l);
        lemma_split_single(l);
        assert(init.push(ls.last()) + seq![l] =~= ls.push(l));
        assert(init.push(ls.last()) =~= ls);
    }
}

/// Trimming the end of `x + y` only reaches into `y` where `y` keeps
/// something once trimmed.
pub proof fn lemma_trim_end_append(x: Seq<char>, y: Seq<char>)
    requires
        trim_end(y).len() > 0,
    ensures
        trim_end(x + y) == x + trim_end(y),
    decreases y.len(),
{
    if y.len() > 0 && is_ws(y.last()) {
        assert((x + y).drop_last() =~= x + y.drop_last());
        lemma_trim_end_append(x, y.drop_last());
    } else {
        assert(y.len() > 0);
        assert((x + y).last() == y.last());
    }
}

pub proof fn lemma_trim_end_prefix(s: Seq<char>)
    ensures
        trim_end(s).len() <= s.len(),
        trim_end(s) == s.subrange(0, trim_end(s).len() as int),
    decreases s.len(),
{
    if s.len() > 0 && is_ws(s.last()) {
        lemma_trim_end_prefix(s.drop_last());
        assert(s.drop_last().subrange(0, trim_end(s).len() as int) =~= s.subrange(
            0,
            trim_end(s).len() as int,
        ));
    } else {
        assert(s.subrange(0, s.len() as int) =~= s);
    }
}

/// Joined lines with the end trimmed split back into the same lines, the
/// last one trimmed.
pub proof fn lemma_split_trimmed_join(ls: Seq<Seq<char>>)
    requires
        ls.len() > 0,
        forall|i: int| 0 <= i < ls.len() ==> no_newline(#[trigger] ls[i]),
        trim_end(ls.last()).len() > 0,
    ensures
        split_lines(trim_end(join_lines(ls))) == ls.update(ls.len() - 1, trim_end(ls.last())),
{
    let init = ls.drop_last();
    let last = ls.last();
    let t = trim_end(last);
    assert((last + seq!['\n']).drop_last() =~= last);
    assert(trim_end(last + seq!['\n']) == t);
    assert(join_lines(ls) =~= join_lines(init) + (last + seq!['\n']));
    lemma_trim_end_append(join_lines(init), last + seq!['\n']);
    lemma_trim_end_prefix(last);
    assert(no_newline(last));
    assert(no_newline(t)) by {
        assert forall|i: int| 0 <= i < t.len() implies #[trigger] t[i] != '\n' by {
            assert(t[i] == last[i]);
        }
    }
    assert forall|i: int| 0 <= i < init.len() implies no_newline(#[trigger] init[i]) by {
        assert(init[i] == ls[i]);
    }
    lemma_split_join(init, t);
    assert(init.push(t) =~= ls.update(ls.len() - 1, t));
}

/// Joining two runs of lines joins their texts.
pub proof fn lemma_join_lines_append(a: Seq<Seq<char>>, b: Seq<Seq<char>>)
    ensures
        join_lines(a + b) == join_lines(a) + join_lines(b),
    decreases b.len(),
{
    if b.len() == 0 {
        assert(a + b =~= a);
        assert(join_lines(a) + join_lines(b) =~= join_lines(a));
    } else {
        assert((a + b).drop_last() =~= a + b.drop_last());
        lemma_join_lines_append(a, b.drop_last());
        assert(join_lines(a + b) =~= join_lines(a) + join_lines(b));
    }
}

/// The last blank line of some lines, a blank line and lines that are not
/// blank is that blank line.
pub proof fn lemma_last_blank_before(a: Seq<Seq<char>>, b: Seq<Seq<char>>)
    requires
        forall|i: int| 0 <= i < b.len() ==> !is_blank(#[trigger] b[i]),
    ensures
        last_blank(a + seq![Seq::<char>::empty()] + b) == a.len(),
    decreases b.len(),
{
    let all = a + seq![Seq::<char>::empty()] + b;
    if b.len() == 0 {
        assert(all.last() == Seq::<char>::empty());
        assert(is_blank(all.last()));
    } else {
        assert(all.last() == b.last());
        assert(!is_blank(b[b.len() - 1]));
        assert(all.drop_last() =~= a + seq![Seq::<char>::empty()] + b.drop_last());
        assert forall|i: int| 0 <= i < b.drop_last().len() implies !is_blank(#[trigger] b.drop_last()[i]) by {
            assert(b.drop_last()[i] == b[i]);
        }
        lemma_last_blank_before(a, b.drop_last());
    }
}

pub proof fn lemma_last_blank(ls: Seq<Seq<char>>)
    ensures
        -1 <= last_blank(ls) < ls.len(),
        last_blank(ls) >= 0 ==> is_blank(ls[last_blank(ls)]),
        forall|k: int| last_blank(ls) < k < ls.len() ==> !is_blank(#[trigger] ls[k]),
    decreases ls.len(),
{
    if ls.len() > 0 && !is_blank(ls.last()) {
        lemma_last_blank(ls.drop_last());
        assert forall|k: int| last_blank(ls) < k < ls.len() implies !is_blank(#[trigger] ls[k]) by {
            if k < ls.len() - 1 {
                assert(ls[k] == ls.drop_last()[k]);
            }
        }
    }
}

pub proof fn lemma_key_len_unique(l: Seq<char>, c: int, d: int)
    requires
        key_len(l, c),
        key_len(l, d),
    ensures
        c == d,
{
    if c < d {
        assert(is_key_char(l[c]));
    } else if d < c {
        assert(is_key_char(l[d]));
    }
}

/// The trailers of a description, in order.
pub fn parse_description_trailers(description: &str) -> (r: Vec<Trailer>)
    ensures
        r@.map_values(|t: Trailer| t@) == description_trailers(description@),
{
    let cs = chars_of(description);
    let n = trimmed_end(&cs, 0, cs.len());
    let ranges = line_ranges(&cs, n);
    let ghost d = description@;
    let ghost ls = split_lines(trim_end(d));
    proof {
        assert(cs@.subrange(0, cs@.len() as int) =~= d);
        lemma_last_blank(ls);
    }
    let m = ranges.len();
    let mut b: usize = m;
    while b > 0
        invariant
            b <= m,
            m == ls.len(),
            cs@ == d,
            forall|i: int| #![trigger ranges@[i]] 0 <= i < ranges@.len() ==> {
                &&& ranges@[i].0 <= ranges@[i].1 <= n
                &&& cs@.subrange(ranges@[i].0 as int, ranges@[i].1 as int) == ls[i]
            },
            ranges@.len() == m,
            n <= cs@.len(),
            forall|k: int| b <= k < m ==> !is_blank(#[trigger] ls[k]),
        ensures
            b > 0 ==> is_blank(ls[b - 1]),
            forall|k: int| b <= k < m ==> !is_blank(#[trigger] ls[k]),
        decreases b,
    {
        let (from, to) = ranges[b - 1];
        if is_blank_range(&cs, from, to) {
            break;
        }
        b = b - 1;
    }
    let ghost lb = last_blank(ls);
    let ghost block = ls.subrange(lb + 1, ls.len() as int);
    proof {
        if b > 0 {
            assert(is_blank(ls[b - 1]));
            if lb > b - 1 {
                assert(!is_blank(ls[lb]));
            }
            if lb < b - 1 {
                assert(!is_blank(ls[b - 1]));
            }
            assert(lb == b - 1);
        } else {
            if lb >= 0 {
                assert(!is_blank(ls[lb]));
            }
        }
    }
    let mut out: Vec<Trailer> = Vec::new();
    if b == 0 {
        proof {
            assert(out@.map_values(|t: Trailer| t@) =~= description_trailers(d));
        }
        return out;
    }
    let mut i: usize = b;
    while i < m
        invariant
            b > 0,
            b <= i <= m,
            m == ls.len(),
            lb == b - 1,
            lb == last_blank(ls),
            ls == split_lines(trim_end(d)),
            block == ls.subrange(lb + 1, ls.len() as int),
            cs@ == d,
            d == description@,
            forall|j: int| #![trigger ranges@[j]] 0 <= j < ranges@.len() ==> {
                &&& ranges@[j].0 <= ranges@[j].1 <= n
                &&& cs@.subrange(ranges@[j].0 as int, ranges@[j].1 as int) == ls[j]
            },
            ranges@.len() == m,
            n <= cs@.len(),
            out@.len() == i - b,
            forall|j: int| b <= j < i ==> is_trailer_line(#[trigger] ls[j]),
            forall|j: int| 0 <= j < out@.len() ==> #[trigger] out@[j]@ == line_trailer(ls[j + b]),
        decreases m - i,
    {
        let (from, to) = ranges[i];
        match trailer_key_end(&cs, from, to) {
            None => {
                proof {
                    assert(cs@.subrange(from as int, to as int) == ls[i as int]);
                    assert(!is_trailer_line(ls[i as int]));
                    assert(block[i - b] == ls[i as int]);
                    assert(!is_trailer_line(block[i - b]));
                    assert(description_trailers(d) =~= Seq::<(Seq<char>, Seq<char>)>::empty());
                }
                return Vec::new();
            },
            Some(c) => {
                let e = trimmed_end(&cs, c + 1, to);
                let st = trimmed_start(&cs, c + 1, e);
                let key = description.substring_char(from, c).to_owned();
                let value = description.substring_char(st, e).to_owned();
                proof {
                    let l = ls[i as int];
                    assert(l == cs@.subrange(from as int, to as int));
                    let k = choose|k: int| key_len(l, k);
                    lemma_key_len_unique(l, k, c - from);
                    assert(l.subrange(0, c - from) =~= cs@.subrange(from as int, c as int));
                    assert(l.subrange(c - from + 1, l.len() as int) =~= cs@.subrange(c + 1, to as int));
                }
                out.push(Trailer { key, value });
            },
        }
        i = i + 1;
    }
    proof {
        assert forall|j: int| 0 <= j < block.len() implies is_trailer_line(#[trigger] block[j]) by {
            assert(block[j] == ls[j + b]);
        }
        assert(out@.map_values(|t: Trailer| t@) =~= description_trailers(d));
    }
    out
}

} // verus!
