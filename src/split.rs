//! Splitting of Markdown text into paragraphs that keep code blocks whole.
use vstd::prelude::*;

use crate::text::{chars_of, is_white_space, trim_end_ws, trim_start_ws, trim_str, trim_ws};

verus! {

/// The number of backticks in a row from position `i` on.
pub open spec fn run_len(s: Seq<char>, i: int) -> nat
    decreases s.len() - i,
{
    if 0 <= i < s.len() && s[i] == '`' {
        1 + run_len(s, i + 1)
    } else {
        0
    }
}

/// The code block ranges found by scanning `s` from position `i` on, where
/// `open` holds the position and length of a run of backticks that opened a
/// block not yet closed. A run of three or more backticks opens a block, and
/// only a later run of the same length closes it; a block that is never
/// closed extends to the end of the text.
pub open spec fn fences_from(s: Seq<char>, i: int, open: Option<(int, nat)>) -> Seq<(int, int)>
    decreases s.len() - i,
    via fences_from_decreases
{
    if i >= s.len() {
        match open {
            Some(o) => seq![(o.0, s.len() as int)],
            None => seq![],
        }
    } else if 0 <= i && s[i] == '`' {
        let t = run_len(s, i);
        let closes = t >= 3 && open is Some && open->Some_0.1 == t;
        let emitted: Seq<(int, int)> = if closes {
            seq![(open->Some_0.0, i + t)]
        } else {
            seq![]
        };
        let next_open = if t < 3 {
            open
        } else if open is None {
            Some((i, t))
        } else if closes {
            None
        } else {
            open
        };
        emitted + fences_from(s, i + t, next_open)
    } else {
        fences_from(s, i + 1, open)
    }
}

#[via_fn]
proof fn fences_from_decreases(s: Seq<char>, i: int, open: Option<(int, nat)>) {
    if 0 <= i < s.len() && s[i] == '`' {
        lemma_run_len_bound(s, i);
    }
}

/// A run of backticks ends within the text.
pub proof fn lemma_run_len_bound(s: Seq<char>, i: int)
    requires
        0 <= i <= s.len(),
    ensures
        i + run_len(s, i) <= s.len(),
        i < s.len() && s[i] == '`' ==> run_len(s, i) >= 1,
    decreases s.len() - i,
{
    if i < s.len() && s[i] == '`' {
        lemma_run_len_bound(s, i + 1);
    }
}

/// The half-open ranges of the code blocks of `s`, in order.
pub open spec fn fence_ranges(s: Seq<char>) -> Seq<(int, int)> {
    fences_from(s, 0, None)
}

/// Ranges that lie in order between `lo` and `n`, none overlapping the next.
pub open spec fn ranges_wf(rs: Seq<(int, int)>, lo: int, n: int) -> bool
    decreases rs.len(),
{
    rs.len() == 0 || (lo <= rs[0].0 <= rs[0].1 <= n && ranges_wf(rs.drop_first(), rs[0].1, n))
}

proof fn lemma_ranges_wf_lower(rs: Seq<(int, int)>, lo1: int, lo2: int, n: int)
    requires
        ranges_wf(rs, lo2, n),
        lo1 <= lo2,
    ensures
        ranges_wf(rs, lo1, n),
{
}

proof fn lemma_fences_wf(s: Seq<char>, i: int, open: Option<(int, nat)>)
    requires
        0 <= i <= s.len(),
        open is Some ==> 0 <= open->Some_0.0 <= i,
    ensures
        ranges_wf(
            fences_from(s, i, open),
            if open is Some {
                open->Some_0.0
            } else {
                i
            },
            s.len() as int,
        ),
    decreases s.len() - i,
{
    let lo = if open is Some {
        open->Some_0.0
    } else {
        i
    };
    if i >= s.len() {
        if open is Some {
            let only = seq![(open->Some_0.0, s.len() as int)];
            assert(only.drop_first() =~= seq![]);
            assert(ranges_wf(only.drop_first(), s.len() as int, s.len() as int));
        }
    } else if s[i] == '`' {
        let t = run_len(s, i);
        lemma_run_len_bound(s, i);
        let closes = t >= 3 && open is Some && open->Some_0.1 == t;
        let next_open = if t < 3 {
            open
        } else if open is None {
            Some((i, t))
        } else if closes {
            None
        } else {
            open
        };
        lemma_fences_wf(s, i + t, next_open);
        let rest = fences_from(s, i + t, next_open);
        if closes {
            let all = fences_from(s, i, open);
            assert(all == seq![(open->Some_0.0, i + t)] + rest);
            assert(all.drop_first() == rest);
        } else {
            let lo_rest = if next_open is Some {
                next_open->Some_0.0
            } else {
                i + t
            };
            lemma_ranges_wf_lower(rest, lo, lo_rest, s.len() as int);
            assert(fences_from(s, i, open) == seq![] + rest);
            assert(seq![] + rest == rest);
        }
    } else {
        lemma_fences_wf(s, i + 1, open);
        let lo_rest = if open is Some {
            open->Some_0.0
        } else {
            i + 1
        };
        lemma_ranges_wf_lower(fences_from(s, i + 1, open), lo, lo_rest, s.len() as int);
    }
}

/// The ranges as mathematical integers.
pub open spec fn as_ranges(v: Seq<(usize, usize)>) -> Seq<(int, int)> {
    v.map_values(|r: (usize, usize)| (r.0 as int, r.1 as int))
}

/// An open block as mathematical integers.
pub open spec fn open_of(o: Option<(usize, usize)>) -> Option<(int, nat)> {
    match o {
        Some(p) => Some((p.0 as int, p.1 as nat)),
        None => None,
    }
}

/// Finds the code block ranges of a text given as its characters.
fn find_fences(chars: &Vec<char>) -> (r: Vec<(usize, usize)>)
    ensures
        as_ranges(r@) == fence_ranges(chars@),
{
    let ghost s = chars@;
    let n = chars.len();
    let mut ranges: Vec<(usize, usize)> = Vec::new();
    let mut open: Option<(usize, usize)> = None;
    let mut i: usize = 0;
    assert(as_ranges(ranges@) =~= seq![]);
    while i < n
        invariant
            i <= n == s.len(),
            s == chars@,
            as_ranges(ranges@) + fences_from(s, i as int, open_of(open)) == fence_ranges(s),
            open is Some ==> open->Some_0.0 <= i,
        decreases n - i,
    {
        if chars[i] == '`' {
            let mut j: usize = i;
            while j < n && chars[j] == '`'
                invariant
                    i <= j <= n == s.len(),
                    s == chars@,
                    run_len(s, i as int) == (j - i) + run_len(s, j as int),
                decreases n - j,
            {
                j += 1;
            }
            let t = j - i;
            assert(run_len(s, i as int) == t);
            let ghost old_ranges = ranges@;
            if t >= 3 {
                match open {
                    Some((start, len)) => {
                        if len == t {
                            ranges.push((start, j));
                            open = None;
                            assert(as_ranges(ranges@) =~= as_ranges(old_ranges) + seq![
                                (start as int, j as int),
                            ]);
                        }
                    },
                    None => {
                        open = Some((i, t));
                    },
                }
            }
            i = j;
        } else {
            i += 1;
        }
    }
    match open {
        Some((start, _len)) => {
            let ghost old_ranges = ranges@;
            ranges.push((start, n));
            assert(as_ranges(ranges@) =~= as_ranges(old_ranges) + seq![(start as int, n as int)]);
        },
        None => {
            assert(as_ranges(ranges@) + seq![] =~= as_ranges(ranges@));
        },
    }
    ranges
}

/// The pieces of `s` from `start` to `end` cut at each blank-line separator
/// (two line feeds in a row), scanning from `j` on for the next one;
/// separators are matched from the left without overlapping.
pub open spec fn split_scan(s: Seq<char>, start: int, j: int, end: int) -> Seq<Seq<char>>
    decreases end - j,
{
    if j + 1 < end {
        if s[j] == '\n' && s[j + 1] == '\n' {
            seq![s.subrange(start, j)] + split_scan(s, j + 2, j + 2, end)
        } else {
            split_scan(s, start, j + 1, end)
        }
    } else {
        seq![s.subrange(start, end)]
    }
}

/// The pieces of `s` from `start` to `end` between blank-line separators.
pub open spec fn pieces(s: Seq<char>, start: int, end: int) -> Seq<Seq<char>> {
    split_scan(s, start, start, end)
}

/// The units of `s` from position `p` on, given the code block ranges `rs`
/// that lie there: the text before each block cut at its separators, then
/// the block whole, and at last the text after the final block cut at its
/// separators.
pub open spec fn units_from(s: Seq<char>, rs: Seq<(int, int)>, p: int) -> Seq<Seq<char>>
    decreases rs.len(),
{
    if rs.len() == 0 {
        pieces(s, p, s.len() as int)
    } else {
        pieces(s, p, rs[0].0) + seq![s.subrange(rs[0].0, rs[0].1)] + units_from(
            s,
            rs.drop_first(),
            rs[0].1,
        )
    }
}

/// The units trimmed of white space, without those that are then empty.
pub open spec fn kept(us: Seq<Seq<char>>) -> Seq<Seq<char>>
    decreases us.len(),
{
    if us.len() == 0 {
        seq![]
    } else if trim_ws(us.last()).len() == 0 {
        kept(us.drop_last())
    } else {
        kept(us.drop_last()).push(trim_ws(us.last()))
    }
}

/// The paragraphs of a Markdown text.
pub open spec fn paragraphs(s: Seq<char>) -> Seq<Seq<char>> {
    kept(units_from(s, fence_ranges(s), 0))
}

/// The texts of a sequence of string slices.
pub open spec fn views(v: Seq<&str>) -> Seq<Seq<char>> {
    v.map_values(|p: &str| p@)
}

/// Keeping units one list after another is keeping each list in turn.
pub proof fn lemma_kept_concat(a: Seq<Seq<char>>, b: Seq<Seq<char>>)
    ensures
        kept(a + b) == kept(a) + kept(b),
    decreases b.len(),
{
    if b.len() == 0 {
        assert(a + b =~= a);
        assert(kept(a) + kept(b) =~= kept(a));
    } else {
        lemma_kept_concat(a, b.drop_last());
        assert((a + b).drop_last() =~= a + b.drop_last());
        assert((a + b).last() == b.last());
        if trim_ws(b.last()).len() != 0 {
            assert(kept(a) + kept(b.drop_last()).push(trim_ws(b.last())) =~= (kept(a) + kept(
                b.drop_last(),
            )).push(trim_ws(b.last())));
        }
    }
}

proof fn lemma_kept_one(x: Seq<char>)
    ensures
        kept(seq![x]) == if trim_ws(x).len() == 0 {
            seq![]
        } else {
            seq![trim_ws(x)]
        },
{
    reveal_with_fuel(kept, 2);
    assert(seq![x].drop_last() =~= Seq::<Seq<char>>::empty());
    assert(seq![x].last() == x);
    assert(Seq::<Seq<char>>::empty().push(trim_ws(x)) =~= seq![trim_ws(x)]);
}

/// Push a non-empty text to the result vector.
fn push_result<'a>(result: &mut Vec<&'a str>, text: &'a str)
    ensures
        views(final(result)@) == views(old(result)@) + kept(seq![text@]),
{
    proof {
        lemma_kept_one(text@);
    }
    let text = trim_str(text);
    if !text.is_empty() {
        let ghost before = result@;
        result.push(text);
        assert(views(result@) =~= views(before) + seq![text@]);
    } else {
        assert(views(result@) + seq![] =~= views(result@));
    }
}

/// Pushes the non-empty pieces of `markdown` from `start` to `end`.
fn push_pieces<'a>(
    markdown: &'a str,
    chars: &Vec<char>,
    start: usize,
    end: usize,
    result: &mut Vec<&'a str>,
)
    requires
        chars@ == markdown@,
        start <= end <= chars@.len(),
    ensures
        views(final(result)@) == views(old(result)@) + kept(pieces(markdown@, start as int, end as int)),
{
    let ghost s = markdown@;
    let ghost target = views(result@) + kept(pieces(s, start as int, end as int));
    let mut from: usize = start;
    let mut j: usize = start;
    proof {
        assert(views(result@) + seq![] =~= views(result@));
    }
    while end - j >= 2
        invariant
            chars@ == s,
            markdown@ == s,
            start <= from <= j <= end <= s.len(),
            views(result@) + kept(split_scan(s, from as int, j as int, end as int)) == target,
        decreases end - j,
    {
        if chars[j] == '\n' && chars[j + 1] == '\n' {
            let ghost before = views(result@);
            let ghost f0 = from as int;
            let ghost j0 = j as int;
            let ghost rest = split_scan(s, j0 + 2, j0 + 2, end as int);
            proof {
                assert(split_scan(s, f0, j0, end as int) == seq![s.subrange(f0, j0)] + rest);
                lemma_kept_concat(seq![s.subrange(f0, j0)], rest);
            }
            push_result(result, markdown.substring_char(from, j));
            j += 2;
            from = j;
            assert(views(result@) + kept(rest) =~= before + (kept(seq![s.subrange(f0, j0)]) + kept(
                rest,
            )));
        } else {
            j += 1;
        }
    }
    push_result(result, markdown.substring_char(from, end));
}

/// Splits a markdown string into paragraphs: a code block stays whole, and
/// the text around code blocks is cut at blank lines; every paragraph is
/// trimmed of white space, and empty ones are dropped.
pub fn split_markdown(markdown: &str) -> (r: Vec<&str>)
    ensures
        views(r@) == paragraphs(markdown@),
{
    let ghost s = markdown@;
    let chars = chars_of(markdown);
    let ranges = find_fences(&chars);
    let ghost rs = fence_ranges(s);
    proof {
        lemma_fences_wf(s, 0, None);
    }
    let n = chars.len();
    let mut result: Vec<&str> = Vec::new();
    let mut last: usize = 0;
    let mut k: usize = 0;
    assert(rs.subrange(0, rs.len() as int) =~= rs);
    assert(views(result@) =~= seq![]);
    while k < ranges.len()
        invariant
            chars@ == s,
            markdown@ == s,
            n == s.len(),
            as_ranges(ranges@) == rs,
            k <= ranges@.len() == rs.len(),
            last <= n,
            ranges_wf(rs.subrange(k as int, rs.len() as int), last as int, n as int),
            views(result@) + kept(units_from(s, rs.subrange(k as int, rs.len() as int), last as int))
                == paragraphs(s),
        decreases ranges.len() - k,
    {
        let (a, b) = ranges[k];
        let ghost rest = rs.subrange(k as int, rs.len() as int);
        assert(rest[0] == (a as int, b as int));
        assert(rest.drop_first() =~= rs.subrange(k + 1, rs.len() as int));
        let ghost before = views(result@);
        proof {
            lemma_kept_concat(
                pieces(s, last as int, a as int) + seq![s.subrange(a as int, b as int)],
                units_from(s, rest.drop_first(), b as int),
            );
            lemma_kept_concat(
                pieces(s, last as int, a as int),
                seq![s.subrange(a as int, b as int)],
            );
        }
        push_pieces(markdown, &chars, last, a, &mut result);
        push_result(&mut result, markdown.substring_char(a, b));
        assert(views(result@) + kept(units_from(s, rest.drop_first(), b as int)) =~= before + kept(
            units_from(s, rest, last as int),
        ));
        last = b;
        k += 1;
    }
    push_pieces(markdown, &chars, last, n, &mut result);
    result
}

proof fn lemma_run_chars(s: Seq<char>, i: int, k: int)
    requires
        0 <= i,
        0 <= k < run_len(s, i),
    ensures
        i + k < s.len(),
        s[i + k] == '`',
    decreases k,
{
    if k > 0 {
        lemma_run_chars(s, i + 1, k - 1);
    }
}

proof fn lemma_run_end(s: Seq<char>, i: int)
    requires
        0 <= i <= s.len(),
    ensures
        run_len(s, i + run_len(s, i)) == 0,
    decreases s.len() - i,
{
    if i < s.len() && s[i] == '`' {
        lemma_run_end(s, i + 1);
    }
}

proof fn lemma_no_fences(s: Seq<char>, i: int)
    requires
        0 <= i <= s.len(),
        forall|j: int|
            0 <= j && j + 2 < s.len() ==> !(#[trigger] s[j] == '`' && s[j + 1] == '`' && s[j + 2] == '`'),
    ensures
        fences_from(s, i, None) == Seq::<(int, int)>::empty(),
    decreases s.len() - i,
{
    if i < s.len() {
        if s[i] == '`' {
            let t = run_len(s, i);
            lemma_run_len_bound(s, i);
            if t >= 3 {
                lemma_run_chars(s, i, 0);
                lemma_run_chars(s, i, 1);
                lemma_run_chars(s, i, 2);
            }
            lemma_no_fences(s, i + t);
            assert(fences_from(s, i, None) == seq![] + fences_from(s, i + t, None));
            assert(Seq::<(int, int)>::empty() + Seq::<(int, int)>::empty() =~= Seq::<
                (int, int),
            >::empty());
        } else {
            lemma_no_fences(s, i + 1);
        }
    }
}

proof fn lemma_no_separator(s: Seq<char>, start: int, j: int, end: int)
    requires
        0 <= start <= j <= end <= s.len(),
        forall|k: int| 0 <= k && k + 1 < s.len() ==> !(#[trigger] s[k] == '\n' && s[k + 1] == '\n'),
    ensures
        split_scan(s, start, j, end) == seq![s.subrange(start, end)],
    decreases end - j,
{
    if j + 1 < end {
        lemma_no_separator(s, start, j + 1, end);
    }
}

proof fn lemma_trim_empty()
    ensures
        trim_ws(Seq::<char>::empty()) == Seq::<char>::empty(),
{
    assert(trim_start_ws(Seq::<char>::empty()) == Seq::<char>::empty());
}

proof fn lemma_trim_end_keeps_first(s: Seq<char>)
    requires
        s.len() > 0,
        !is_white_space(s[0]),
    ensures
        trim_end_ws(s).len() > 0,
    decreases s.len(),
{
    if s.len() > 1 && is_white_space(s.last()) {
        lemma_trim_end_keeps_first(s.drop_last());
    }
}

/// A text with no run of three backticks and no blank-line separator is a
/// single paragraph: the text trimmed of white space, or no paragraph at all
/// when the text is only white space.
pub proof fn lemma_plain_text_is_one_paragraph(s: Seq<char>)
    requires
        forall|i: int|
            0 <= i && i + 2 < s.len() ==> !(#[trigger] s[i] == '`' && s[i + 1] == '`' && s[i + 2] == '`'),
        forall|i: int| 0 <= i && i + 1 < s.len() ==> !(#[trigger] s[i] == '\n' && s[i + 1] == '\n'),
    ensures
        paragraphs(s) == if trim_ws(s).len() == 0 {
            Seq::<Seq<char>>::empty()
        } else {
            seq![trim_ws(s)]
        },
{
    lemma_no_fences(s, 0);
    lemma_no_separator(s, 0, 0, s.len() as int);
    assert(s.subrange(0, s.len() as int) =~= s);
    lemma_kept_one(s);
}

proof fn lemma_run_len_take(s: Seq<char>, o: int, i: int)
    requires
        0 <= o <= s.len(),
        0 <= i,
    ensures
        run_len(s.take(o), i) <= run_len(s, i),
    decreases s.len() - i,
{
    if i < o && s[i] == '`' {
        lemma_run_len_take(s, o, i + 1);
    }
}

proof fn lemma_scan_to(s: Seq<char>, i: int, o: int)
    requires
        0 <= i <= o <= s.len(),
        o == 0 || o == s.len() || s[o - 1] != '`',
        0 < i < s.len() && s[i] == '`' ==> s[i - 1] != '`',
        forall|j: int|
            0 <= j < o && s[j] == '`' && (j == 0 || s[j - 1] != '`') ==> #[trigger] run_len(s, j)
                < 3,
    ensures
        fences_from(s, i, None) == fences_from(s, o, None),
    decreases o - i,
{
    if i < o {
        if s[i] == '`' {
            let t = run_len(s, i);
            lemma_run_len_bound(s, i);
            lemma_run_end(s, i);
            if i + t > o {
                lemma_run_chars(s, i, o - 1 - i);
            }
            lemma_scan_to(s, i + t, o);
            assert(fences_from(s, i, None) == seq![] + fences_from(s, i + t, None));
            assert(seq![] + fences_from(s, i + t, None) =~= fences_from(s, i + t, None));
        } else {
            lemma_scan_to(s, i + 1, o);
        }
    }
}

proof fn lemma_never_closed(s: Seq<char>, i: int, o: int, t: nat)
    requires
        0 <= o,
        t >= 1,
        o + t <= i <= s.len(),
        i < s.len() && s[i] == '`' ==> s[i - 1] != '`',
        forall|j: int|
            o < j < s.len() && s[j] == '`' && s[j - 1] != '`' ==> #[trigger] run_len(s, j) != t,
    ensures
        fences_from(s, i, Some((o, t))) == seq![(o, s.len() as int)],
    decreases s.len() - i,
{
    if i < s.len() {
        if s[i] == '`' {
            let u = run_len(s, i);
            lemma_run_len_bound(s, i);
            lemma_run_end(s, i);
            lemma_never_closed(s, i + u, o, t);
            assert(fences_from(s, i, Some((o, t))) == seq![] + fences_from(s, i + u, Some((o, t))));
            assert(seq![] + seq![(o, s.len() as int)] =~= seq![(o, s.len() as int)]);
        } else {
            lemma_never_closed(s, i + 1, o, t);
        }
    }
}

proof fn lemma_split_scan_prefix(s: Seq<char>, p: Seq<char>, start: int, j: int, end: int)
    requires
        end <= p.len() <= s.len(),
        p == s.take(p.len() as int),
        0 <= start <= j <= end,
    ensures
        split_scan(s, start, j, end) == split_scan(p, start, j, end),
    decreases end - j,
{
    if j + 1 < end {
        if s[j] == '\n' && s[j + 1] == '\n' {
            lemma_split_scan_prefix(s, p, j + 2, j + 2, end);
            assert(s.subrange(start, j) =~= p.subrange(start, j));
        } else {
            lemma_split_scan_prefix(s, p, start, j + 1, end);
        }
    } else {
        assert(s.subrange(start, end) =~= p.subrange(start, end));
    }
}

/// A code block opened by a run of `t` backticks (three or more) is closed
/// only by a later run of exactly `t` backticks. When the first run of three
/// or more backticks in a text starts at `o` and no later run has exactly its
/// length, the block runs from `o` to the end of the text and is one
/// paragraph, whatever blank lines and shorter or longer runs it holds; the
/// text before it is split on its own.
pub proof fn lemma_unclosed_fence_extends_to_end(s: Seq<char>, o: int, t: nat)
    requires
        0 <= o < s.len(),
        t >= 3,
        run_len(s, o) == t,
        o == 0 || s[o - 1] != '`',
        forall|j: int|
            0 <= j < o && s[j] == '`' && (j == 0 || s[j - 1] != '`') ==> #[trigger] run_len(s, j)
                < 3,
        forall|j: int| o < j < s.len() && s[j] == '`' && s[j - 1] != '`' ==> #[trigger] run_len(s, j) != t,
    ensures
        paragraphs(s) == paragraphs(s.take(o)) + seq![trim_ws(s.subrange(o, s.len() as int))],
{
    let n = s.len() as int;
    let p = s.take(o);
    lemma_run_len_bound(s, o);
    lemma_run_end(s, o);
    lemma_scan_to(s, 0, o);
    lemma_never_closed(s, o + t, o, t);
    assert(fences_from(s, o, None) == seq![] + fences_from(s, o + t, Some((o, t))));
    let rs = seq![(o, n)];
    assert(fence_ranges(s) =~= rs);
    assert(rs.drop_first() =~= Seq::<(int, int)>::empty());
    // The text before the block has no block of its own.
    assert forall|j: int| 0 <= j < o && p[j] == '`' && (j == 0 || p[j - 1] != '`') implies #[trigger] run_len(
        p,
        j,
    ) < 3 by {
        assert(p[j] == s[j]);
        if j > 0 {
            assert(p[j - 1] == s[j - 1]);
        }
        lemma_run_len_take(s, o, j);
    }
    lemma_scan_to(p, 0, o);
    assert(fence_ranges(p) =~= Seq::<(int, int)>::empty());
    lemma_split_scan_prefix(s, p, 0, 0, o);
    assert(paragraphs(p) == kept(pieces(s, 0, o)));
    // The units of the whole text.
    let u = s.subrange(o, n);
    assert(s.subrange(n, n) =~= Seq::<char>::empty());
    assert(pieces(s, n, n) == seq![s.subrange(n, n)]);
    assert(units_from(s, rs.drop_first(), n) == pieces(s, n, n));
    assert(units_from(s, rs, 0) == pieces(s, 0, o) + seq![u] + units_from(s, rs.drop_first(), n));
    lemma_kept_concat(pieces(s, 0, o) + seq![u], seq![Seq::<char>::empty()]);
    lemma_kept_concat(pieces(s, 0, o), seq![u]);
    lemma_trim_empty();
    lemma_kept_one(Seq::<char>::empty());
    lemma_kept_one(u);
    assert(u[0] == s[o]);
    assert(trim_start_ws(u) == u);
    lemma_trim_end_keeps_first(u);
    assert(kept(pieces(s, 0, o)) + seq![trim_ws(u)] + Seq::<Seq<char>>::empty() =~= kept(
        pieces(s, 0, o),
    ) + seq![trim_ws(u)]);
}

} // verus!
