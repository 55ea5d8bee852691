//! Splitting a command line into words: surrounding whitespace is ignored,
//! words are separated by ASCII whitespace outside double quotes, and the
//! quotes themselves are dropped.

use vstd::prelude::*;

use crate::text::{chars_of, lemma_strings_view_push, push_char, strings_view, trim, trim_bounds};

verus! {

/// Scanner state after reading a prefix of a command line.
pub struct ScanState {
    /// Words completed so far.
    pub words: Seq<Seq<char>>,
    /// The word being read.
    pub current: Seq<char>,
    /// Whether an opening double quote is still unmatched.
    pub in_quotes: bool,
}

pub open spec fn scan_start() -> ScanState {
    ScanState { words: Seq::empty(), current: Seq::empty(), in_quotes: false }
}

/// ASCII whitespace (`char::is_ascii_whitespace`): space, tab, line feed,
/// form feed and carriage return.
pub open spec fn is_ascii_ws(ch: char) -> bool {
    ch == ' ' || ch == '\t' || ch == '\n' || ch == '\x0C' || ch == '\r'
}

/// One character of the scan: a quote toggles quoting and is dropped, ASCII
/// whitespace outside quotes ends the current word (if any), any other
/// character extends the current word.
pub open spec fn scan_step(st: ScanState, ch: char) -> ScanState {
    if ch == '"' {
        ScanState { words: st.words, current: st.current, in_quotes: !st.in_quotes }
    } else if is_ascii_ws(ch) && !st.in_quotes {
        if st.current.len() > 0 {
            ScanState { words: st.words.push(st.current), current: Seq::empty(), in_quotes: false }
        } else {
            st
        }
    } else {
        ScanState { words: st.words, current: st.current.push(ch), in_quotes: st.in_quotes }
    }
}

pub open spec fn scan(s: Seq<char>) -> ScanState
    decreases s.len(),
{
    if s.len() == 0 {
        scan_start()
    } else {
        scan_step(scan(s.drop_last()), s.last())
    }
}

/// The words of `s` (already trimmed).
pub open spec fn command_words(s: Seq<char>) -> Seq<Seq<char>> {
    let st = scan(s);
    if st.current.len() > 0 {
        st.words.push(st.current)
    } else {
        st.words
    }
}

/// A command line on which the tokenizers can answer: either blank, or
/// holding at least one word (a line of quotes alone holds none).
pub open spec fn tokenizable(s: Seq<char>) -> bool {
    trim(s).len() == 0 || command_words(trim(s)).len() > 0
}

/// The words of `command` after trimming it.
pub fn split_command(command: &str) -> (r: Vec<String>)
    ensures
        strings_view(r@) == command_words(trim(command@)),
{
    let v = chars_of(command);
    let (start, end) = trim_bounds(&v, 0, v.len());
    assert(v@.subrange(0, v@.len() as int) =~= command@);
    let ghost t = v@.subrange(start as int, end as int);
    let mut words: Vec<String> = Vec::new();
    let mut current = String::new();
    let mut in_quotes = false;
    let mut i = start;
    assert(t.take(0) =~= Seq::<char>::empty());
    assert(strings_view(words@) =~= Seq::<Seq<char>>::empty());
    while i < end
        invariant
            start <= i <= end <= v.len(),
            t == v@.subrange(start as int, end as int),
            scan(t.take(i - start)) == (ScanState {
                words: strings_view(words@),
                current: current@,
                in_quotes,
            }),
        decreases end - i,
    {
        let ch = v[i];
        assert(t.take(i - start + 1).drop_last() =~= t.take(i - start));
        assert(t.take(i - start + 1).last() == ch);
        if ch == '"' {
            in_quotes = !in_quotes;
        } else if (ch == ' ' || ch == '\t' || ch == '\n' || ch == '\x0C' || ch == '\r')
            && !in_quotes {
            if !current.as_str().is_empty() {
                let ghost before = words@;
                let ghost cur = current;
                words.push(current);
                current = String::new();
                proof {
                    lemma_strings_view_push(before, cur);
                }
            }
        } else {
            push_char(&mut current, ch);
        }
        i = i + 1;
    }
    assert(t.take(end - start) =~= t);
    if !current.as_str().is_empty() {
        let ghost before = words@;
        let ghost cur = current;
        words.push(current);
        proof {
            lemma_strings_view_push(before, cur);
        }
    }
    words
}

/// Whether the tokenizers can answer on `command`
/// (see [`tokenizable`]).
pub fn is_tokenizable(command: &str) -> (r: bool)
    ensures
        r == tokenizable(command@),
{
    let words = split_command(command);
    let v = chars_of(command);
    let (start, end) = trim_bounds(&v, 0, v.len());
    assert(v@.subrange(0, v@.len() as int) =~= command@);
    start == end || words.len() > 0
}

// ---------------------------------------------------------------------------
// What the words are
// ---------------------------------------------------------------------------

/// How many double quotes `s` holds.
pub open spec fn quote_count(s: Seq<char>) -> nat
    decreases s.len(),
{
    if s.len() == 0 {
        0
    } else {
        quote_count(s.drop_last()) + if s.last() == '"' {
            1nat
        } else {
            0nat
        }
    }
}

/// `s` with its double quotes removed.
pub open spec fn without_quotes(s: Seq<char>) -> Seq<char>
    decreases s.len(),
{
    if s.len() == 0 {
        Seq::empty()
    } else if s.last() == '"' {
        without_quotes(s.drop_last())
    } else {
        without_quotes(s.drop_last()).push(s.last())
    }
}

/// The pieces of `s` between its unquoted whitespace characters, a
/// character being quoted when an odd number of double quotes precede it.
pub open spec fn unquoted_pieces(s: Seq<char>) -> Seq<Seq<char>>
    decreases s.len(),
{
    if s.len() == 0 {
        seq![Seq::empty()]
    } else {
        let p = unquoted_pieces(s.drop_last());
        if is_ascii_ws(s.last()) && quote_count(s.drop_last()) % 2 == 0 {
            p.push(Seq::empty())
        } else {
            p.update(p.len() - 1, p.last().push(s.last()))
        }
    }
}

/// The pieces with their quotes removed, the empty ones dropped.
pub open spec fn unquoted_words(ps: Seq<Seq<char>>) -> Seq<Seq<char>>
    decreases ps.len(),
{
    if ps.len() == 0 {
        Seq::empty()
    } else {
        let w = without_quotes(ps.last());
        if w.len() > 0 {
            unquoted_words(ps.drop_last()).push(w)
        } else {
            unquoted_words(ps.drop_last())
        }
    }
}

proof fn lemma_scan_pieces(s: Seq<char>)
    ensures
        unquoted_pieces(s).len() >= 1,
        scan(s).in_quotes == (quote_count(s) % 2 == 1),
        scan(s).current == without_quotes(unquoted_pieces(s).last()),
        scan(s).words == unquoted_words(unquoted_pieces(s).drop_last()),
    decreases s.len(),
{
    if s.len() == 0 {
        assert(unquoted_pieces(s).drop_last() =~= Seq::<Seq<char>>::empty());
    } else {
        let t = s.drop_last();
        let c = s.last();
        lemma_scan_pieces(t);
        let p = unquoted_pieces(t);
        let x = p.last();
        if is_ascii_ws(c) && quote_count(t) % 2 == 0 {
            let q = p.push(Seq::empty());
            assert(q.drop_last() =~= p);
            assert(p =~= p.drop_last().push(x));
            assert(without_quotes(Seq::<char>::empty()) == Seq::<char>::empty());
        } else {
            let q = p.update(p.len() - 1, x.push(c));
            assert(q.drop_last() =~= p.drop_last());
            assert(q.last() == x.push(c));
            assert(x.push(c).drop_last() =~= x);
        }
    }
}

/// The words of a command line are its pieces between unquoted ASCII
/// whitespace, with the double quotes removed and the empty ones dropped:
/// a quote only switches quoting on or off and never ends or starts a word.
pub proof fn law_words_split_on_unquoted_whitespace(s: Seq<char>)
    ensures
        command_words(s) == unquoted_words(unquoted_pieces(s)),
{
    lemma_scan_pieces(s);
    let p = unquoted_pieces(s);
    assert(p =~= p.drop_last().push(p.last()));
}

proof fn lemma_scan_plain(p: Seq<char>, w: Seq<char>)
    requires
        forall|i: int| 0 <= i < w.len() ==> #[trigger] w[i] != '"' && !is_ascii_ws(w[i]),
    ensures
        scan(p + w).words == scan(p).words,
        scan(p + w).current == scan(p).current + w,
        scan(p + w).in_quotes == scan(p).in_quotes,
    decreases w.len(),
{
    if w.len() == 0 {
        assert(p + w =~= p);
        assert(scan(p).current + w =~= scan(p).current);
    } else {
        let w0 = w.drop_last();
        lemma_scan_plain(p, w0);
        assert((p + w).drop_last() =~= p + w0);
        assert((p + w).last() == w[w.len() - 1]);
        assert(scan(p).current + w =~= (scan(p).current + w0).push(w.last()));
    }
}

/// Quoting the end of a word does not cut it: for words `u` and `v` free of
/// quotes and whitespace, `u"v"` is the single word `uv`.
pub proof fn law_quoted_tail_joins_word(u: Seq<char>, v: Seq<char>)
    requires
        forall|i: int| 0 <= i < u.len() ==> #[trigger] u[i] != '"' && !is_ascii_ws(u[i]),
        forall|i: int| 0 <= i < v.len() ==> #[trigger] v[i] != '"' && !is_ascii_ws(v[i]),
        u.len() + v.len() > 0,
    ensures
        command_words(u + seq!['"'] + v + seq!['"']) == seq![u + v],
{
    let e = Seq::<char>::empty();
    lemma_scan_plain(e, u);
    assert(e + u =~= u);
    let a = u.push('"');
    assert(a.drop_last() =~= u);
    assert(a.last() == '"');
    assert(scan(a) == scan_step(scan(u), '"'));
    lemma_scan_plain(a, v);
    let b = a + v;
    let full = u + seq!['"'] + v + seq!['"'];
    assert(full =~= b.push('"'));
    assert(full.drop_last() =~= b);
    assert(scan(full) == scan_step(scan(b), '"'));
    assert(scan(e).current + u =~= u);
    assert(scan(b).current =~= u + v);
}

} // verus!
