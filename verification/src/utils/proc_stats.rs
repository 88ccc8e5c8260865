//! Reading the process figures out of the text of `/proc/self/statm` and
//! `/proc/self/status`: whitespace-separated fields, lines and decimal
//! numbers, as Rust's `split_whitespace`, `lines` and `u64` parsing see
//! them. Reading the files is left to the caller.

use vstd::prelude::*;

use crate::module::parser::split_on;
use crate::utils::text::chars_of;

verus! {

/// Unicode `White_Space`, the whitespace of `char::is_whitespace`.
pub open spec fn is_white_space(c: char) -> bool {
    let n = c as u32;
    ||| 9 <= n <= 13
    ||| n == 32
    ||| n == 0x85
    ||| n == 0xa0
    ||| n == 0x1680
    ||| 0x2000 <= n <= 0x200a
    ||| n == 0x2028
    ||| n == 0x2029
    ||| n == 0x202f
    ||| n == 0x205f
    ||| n == 0x3000
}

fn white_space(c: char) -> (r: bool)
    ensures
        r == is_white_space(c),
{
    let n = c as u32;
    (9 <= n && n <= 13) || n == 32 || n == 0x85 || n == 0xa0 || n == 0x1680 || (0x2000 <= n && n <= 0x200a)
        || n == 0x2028 || n == 0x2029 || n == 0x202f || n == 0x205f || n == 0x3000
}

/// The maximal runs of non-whitespace characters of `s`, in order.
pub open spec fn words(s: Seq<char>) -> Seq<Seq<char>>
    decreases s.len(),
{
    if s.len() == 0 {
        Seq::empty()
    } else {
        let w = words(s.drop_last());
        let c = s.last();
        if is_white_space(c) {
            w
        } else if s.len() >= 2 && !is_white_space(s[s.len() - 2]) {
            w.update(w.len() - 1, w.last().push(c))
        } else {
            w.push(seq![c])
        }
    }
}

/// A line, without the carriage return that ended it with the newline.
pub open spec fn strip_cr(l: Seq<char>) -> Seq<char> {
    if l.len() > 0 && l.last() == '\r' {
        l.drop_last()
    } else {
        l
    }
}

/// The lines of `s`: split at each newline, a carriage return before it
/// dropped; a newline at the very end ends the last line rather than
/// starting an empty one.
pub open spec fn lines_of(s: Seq<char>) -> Seq<Seq<char>> {
    let p = split_on(s, '\n');
    let n: int = if p.last().len() == 0 { p.len() - 1 } else { p.len() as int };
    Seq::new(n as nat, |i: int| if i < p.len() - 1 { strip_cr(p[i]) } else { p[i] })
}

/// The value of decimal digits `d`.
pub open spec fn digits_value(d: Seq<char>) -> nat
    decreases d.len(),
{
    if d.len() == 0 {
        0
    } else {
        digits_value(d.drop_last()) * 10 + ((d.last() as u32) - 48) as nat
    }
}

/// Whether every character of `d` is an ASCII digit.
pub open spec fn all_digits(d: Seq<char>) -> bool {
    forall|i: int| 0 <= i < d.len() ==> '0' <= #[trigger] d[i] <= '9'
}

/// What `u64::from_str` gives for `s`: an optional `+`, then one or more
/// ASCII digits whose value fits in a `u64`.
pub open spec fn u64_of(s: Seq<char>) -> Option<u64> {
    let d = if s.len() > 0 && s[0] == '+' { s.drop_first() } else { s };
    if d.len() > 0 && all_digits(d) && digits_value(d) <= u64::MAX {
        Some(digits_value(d) as u64)
    } else {
        None
    }
}

/// The resident memory of `/proc/self/statm` text `s` in MiB: its second
/// field, in 4 KiB pages.
pub open spec fn statm_memory_mb(s: Seq<char>) -> Option<u64> {
    if words(s).len() > 1 && u64_of(words(s)[1]) is Some {
        Some((u64_of(words(s)[1])->0 * 4 / 1024) as u64)
    } else {
        None
    }
}

/// The thread count of a line of `/proc/self/status`, if the line is the
/// `Threads:` line and its second field is a number.
pub open spec fn threads_line(l: Seq<char>) -> Option<u64> {
    if "Threads:"@.is_prefix_of(l) && words(l).len() > 1 {
        u64_of(words(l)[1])
    } else {
        None
    }
}

/// The first thread count among `lines`.
pub open spec fn first_threads(lines: Seq<Seq<char>>) -> Option<u64>
    decreases lines.len(),
{
    if lines.len() == 0 {
        None
    } else if threads_line(lines[0]) is Some {
        threads_line(lines[0])
    } else {
        first_threads(lines.drop_first())
    }
}

/// The thread count of `/proc/self/status` text `s`: that of its first
/// `Threads:` line with a number.
pub open spec fn status_threads(s: Seq<char>) -> Option<u64> {
    first_threads(lines_of(s))
}

/// The characters of each of `v`.
pub open spec fn views(v: Seq<Vec<char>>) -> Seq<Seq<char>> {
    v.map_values(|x: Vec<char>| x@)
}

/// The words of `s`.
fn words_of(s: &Vec<char>) -> (r: Vec<Vec<char>>)
    ensures
        views(r@) == words(s@),
{
    let mut r: Vec<Vec<char>> = Vec::new();
    let mut i: usize = 0;
    proof {
        assert(s@.take(0) =~= Seq::<char>::empty());
        assert(views(r@) =~= Seq::<Seq<char>>::empty());
    }
    while i < s.len()
        invariant
            i <= s.len(),
            views(r@) == words(s@.take(i as int)),
            i > 0 && !is_white_space(s@[i - 1]) ==> r.len() > 0,
        decreases s.len() - i,
    {
        let c = s[i];
        let ghost t = s@.take(i + 1);
        proof {
            assert(t.drop_last() =~= s@.take(i as int));
            assert(t.last() == c);
        }
        if white_space(c) {
        } else if i > 0 && !white_space(s[i - 1]) {
            proof {
                assert(t[t.len() - 2] == s@[i - 1]);
            }
            let ghost before = views(r@);
            let mut last = r.pop().unwrap();
            last.push(c);
            r.push(last);
            proof {
                assert(views(r@) =~= before.update(before.len() - 1, before.last().push(c)));
            }
        } else {
            proof {
                if i > 0 {
                    assert(t[t.len() - 2] == s@[i - 1]);
                }
            }
            let ghost before = views(r@);
            let mut w: Vec<char> = Vec::new();
            w.push(c);
            r.push(w);
            proof {
                assert(w@ =~= seq![c]);
                assert(views(r@) =~= before.push(seq![c]));
            }
        }
        i = i + 1;
    }
    proof {
        assert(s@.take(i as int) =~= s@);
    }
    r
}

/// `u64::from_str` on the characters `s`.
pub fn parse_u64(s: &Vec<char>) -> (r: Option<u64>)
    ensures
        r == u64_of(s@),
{
    let start: usize = if s.len() > 0 && s[0] == '+' { 1 } else { 0 };
    let ghost d = if s@.len() > 0 && s@[0] == '+' { s@.drop_first() } else { s@ };
    proof {
        assert(d =~= s@.skip(start as int));
    }
    if start >= s.len() {
        proof {
            assert(d.len() == 0);
        }
        return None;
    }
    let mut v: u64 = 0;
    let mut i: usize = start;
    proof {
        assert(s@.subrange(start as int, start as int) =~= Seq::<char>::empty());
    }
    while i < s.len()
        invariant
            start <= i <= s.len(),
            d == s@.skip(start as int),
            d == (if s@.len() > 0 && s@[0] == '+' { s@.drop_first() } else { s@ }),
            all_digits(s@.subrange(start as int, i as int)),
            v == digits_value(s@.subrange(start as int, i as int)),
        decreases s.len() - i,
    {
        let c = s[i];
        let ghost pre = s@.subrange(start as int, i as int);
        let ghost next = s@.subrange(start as int, i + 1);
        proof {
            assert(next.drop_last() =~= pre);
            assert(next.last() == c);
        }
        if !('0' <= c && c <= '9') {
            proof {
                assert(d[i - start] == c);
                assert(!('0' <= d[i - start] <= '9'));
                assert(!all_digits(d));
            }
            return None;
        }
        let digit = (c as u32 - 48) as u64;
        if v > (u64::MAX - digit) / 10 {
            proof {
                assert(v * 10 + digit > u64::MAX) by (nonlinear_arith)
                    requires
                        v > (u64::MAX - digit) / 10,
                        digit <= 9,
                ;
                assert(digits_value(next) == v * 10 + digit);
                lemma_digits_prefix_bound(d, (i + 1 - start) as nat);
                assert(d.take((i + 1 - start) as int) =~= next);
            }
            return None;
        }
        v = v * 10 + digit;
        proof {
            assert(all_digits(next)) by {
                assert forall|k: int| 0 <= k < next.len() implies '0' <= #[trigger] next[k] <= '9' by {
                    if k < pre.len() {
                        assert(next[k] == pre[k]);
                    }
                }
            }
        }
        i = i + 1;
    }
    proof {
        assert(s@.subrange(start as int, i as int) =~= d);
    }
    Some(v)
}

/// The value of the digits grows with them: a prefix of digits is worth
/// no more than the whole.
proof fn lemma_digits_prefix_bound(d: Seq<char>, k: nat)
    requires
        k <= d.len(),
    ensures
        all_digits(d) ==> digits_value(d.take(k as int)) <= digits_value(d),
    decreases d.len() - k,
{
    if k < d.len() && all_digits(d) {
        lemma_digits_prefix_bound(d, k + 1);
        let t = d.take(k as int + 1);
        assert(t.drop_last() =~= d.take(k as int));
        assert('0' <= t.last() <= '9') by {
            assert(t.last() == d[k as int]);
        }
    } else if k == d.len() {
        assert(d.take(k as int) =~= d);
    }
}

/// The resident memory, in MiB, in the text of `/proc/self/statm`.
pub fn memory_mb_from_statm(content: &str) -> (r: Option<u64>)
    ensures
        r == statm_memory_mb(content@),
{
    let cs = chars_of(content);
    let ws = words_of(&cs);
    if ws.len() < 2 {
        return None;
    }
    proof {
        assert(views(ws@)[1] == ws@[1]@);
    }
    match parse_u64(&ws[1]) {
        Some(pages) => Some(pages / 256),
        None => None,
    }
}

/// The thread count in the text of `/proc/self/status`.
pub fn threads_from_status(content: &str) -> (r: Option<u64>)
    ensures
        r == status_threads(content@),
{
    let cs = chars_of(content);
    let pieces = split_lines(&cs);
    let ghost p = split_on(content@, '\n');
    let n = if pieces[pieces.len() - 1].len() == 0 { pieces.len() - 1 } else { pieces.len() };
    let ghost ls = lines_of(content@);
    let mut i: usize = 0;
    proof {
        assert(ls.skip(0) =~= ls);
    }
    while i < n
        invariant
            views(pieces@) == p,
            p == split_on(content@, '\n'),
            p.len() > 0,
            n <= pieces.len(),
            n == ls.len(),
            ls == lines_of(content@),
            i <= n,
            first_threads(ls) == first_threads(ls.skip(i as int)),
        decreases n - i,
    {
        let mut line = clone_chars(&pieces[i]);
        let ghost orig = line@;
        proof {
            assert(views(pieces@)[i as int] == pieces@[i as int]@);
            assert(orig == p[i as int]);
        }
        if i + 1 < pieces.len() && line.len() > 0 && line[line.len() - 1] == '\r' {
            line.pop();
            proof {
                assert(line@ =~= orig.drop_last());
            }
        }
        proof {
            assert(ls[i as int] == (if (i as int) < p.len() - 1 { strip_cr(p[i as int]) } else { p[i as int] }));
            assert(line@ == ls[i as int]);
            assert(ls.skip(i as int)[0] == ls[i as int]);
            assert(ls.skip(i as int).drop_first() =~= ls.skip(i + 1));
        }
        let t = threads_in_line(&line);
        if t.is_some() {
            return t;
        }
        i = i + 1;
    }
    proof {
        assert(ls.skip(i as int) =~= Seq::<Seq<char>>::empty());
    }
    None
}

/// A copy of `v`.
fn clone_chars(v: &Vec<char>) -> (r: Vec<char>)
    ensures
        r@ == v@,
{
    let mut r: Vec<char> = Vec::new();
    let mut i: usize = 0;
    while i < v.len()
        invariant
            i <= v.len(),
            r@ == v@.take(i as int),
        decreases v.len() - i,
    {
        r.push(v[i]);
        proof {
            assert(r@ =~= v@.take(i + 1));
        }
        i = i + 1;
    }
    proof {
        assert(v@.take(i as int) =~= v@);
    }
    r
}

/// The pieces of `s` between newlines.
fn split_lines(s: &Vec<char>) -> (r: Vec<Vec<char>>)
    ensures
        views(r@) == split_on(s@, '\n'),
        r.len() > 0,
{
    let mut r: Vec<Vec<char>> = Vec::new();
    let e: Vec<char> = Vec::new();
    r.push(e);
    let mut i: usize = 0;
    proof {
        assert(s@.take(0) =~= Seq::<char>::empty());
        assert(views(r@) =~= seq![Seq::<char>::empty()]);
    }
    while i < s.len()
        invariant
            i <= s.len(),
            r.len() > 0,
            views(r@) == split_on(s@.take(i as int), '\n'),
        decreases s.len() - i,
    {
        let c = s[i];
        let ghost t = s@.take(i + 1);
        proof {
            assert(t.drop_last() =~= s@.take(i as int));
            assert(t.last() == c);
        }
        let ghost before = views(r@);
        if c == '\n' {
            let e: Vec<char> = Vec::new();
            r.push(e);
            proof {
                assert(e@ =~= Seq::<char>::empty());
                assert(views(r@) =~= before.push(Seq::<char>::empty()));
            }
        } else {
            let mut last = r.pop().unwrap();
            last.push(c);
            r.push(last);
            proof {
                assert(views(r@) =~= before.update(before.len() - 1, before.last().push(c)));
            }
        }
        i = i + 1;
    }
    proof {
        assert(s@.take(i as int) =~= s@);
    }
    r
}

/// The thread count of one line, if it is the `Threads:` line with a
/// number.
fn threads_in_line(line: &Vec<char>) -> (r: Option<u64>)
    ensures
        r == threads_line(line@),
{
    let prefix = chars_of("Threads:");
    proof {
        reveal_strlit("Threads:");
    }
    if line.len() < prefix.len() {
        return None;
    }
    let mut k: usize = 0;
    while k < prefix.len()
        invariant
            k <= prefix.len() <= line.len(),
            prefix@ == "Threads:"@,
            forall|j: int| 0 <= j < k ==> prefix@[j] == line@[j],
        decreases prefix.len() - k,
    {
        if prefix[k] != line[k] {
            return None;
        }
        k = k + 1;
    }
    proof {
        assert("Threads:"@.is_prefix_of(line@)) by {
            assert(line@.subrange(0, prefix@.len() as int) =~= prefix@);
        }
    }
    let ws = words_of(line);
    if ws.len() < 2 {
        return None;
    }
    proof {
        assert(views(ws@)[1] == ws@[1]@);
    }
    parse_u64(&ws[1])
}

} // verus!
