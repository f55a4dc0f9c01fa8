//! The text of the immediate-mode HELP response: normalised topic keys and
//! word wrapping to the console width.
use vstd::prelude::*;
use crate::text::{is_ws, is_control, upper_seq, str_chars, string_from_chars, char_is_whitespace, char_is_control, chars_upper, extend_with_chars};
use crate::separators::{trim, trim_end, back_ws};

verus! {

/// The console width that HELP lines fit in.
pub const MAX_LINE_WIDTH: usize = 80;

/// The words of the first `n` characters of `s` and the word in progress.
pub open spec fn word_fold(s: Seq<char>, n: int) -> (Seq<Seq<char>>, Seq<char>)
    decreases n,
{
    if n <= 0 {
        (Seq::<Seq<char>>::empty(), Seq::<char>::empty())
    } else {
        let (ws, cur) = word_fold(s, n - 1);
        let c = s[n - 1];
        if is_ws(c) {
            if cur.len() > 0 {
                (ws.push(cur), Seq::<char>::empty())
            } else {
                (ws, Seq::<char>::empty())
            }
        } else {
            (ws, cur.push(c))
        }
    }
}

/// The whitespace-separated words of `s` (`str::split_whitespace`).
pub open spec fn words(s: Seq<char>) -> Seq<Seq<char>> {
    let (ws, cur) = word_fold(s, s.len() as int);
    if cur.len() > 0 {
        ws.push(cur)
    } else {
        ws
    }
}

fn split_words(s: &[char]) -> (r: Vec<Vec<char>>)
    ensures
        crate::editor::doc(r@) == words(s@),
{
    let mut ws: Vec<Vec<char>> = Vec::new();
    let mut cur: Vec<char> = Vec::new();
    let mut i: usize = 0;
    while i < s.len()
        invariant
            0 <= i <= s@.len(),
            crate::editor::doc(ws@) == word_fold(s@, i as int).0,
            cur@ == word_fold(s@, i as int).1,
        decreases s@.len() - i,
    {
        let c = s[i];
        if char_is_whitespace(c) {
            if cur.len() > 0 {
                let ghost before = crate::editor::doc(ws@);
                ws.push(cur);
                assert(crate::editor::doc(ws@) =~= before.push(word_fold(s@, i as int).1));
                cur = Vec::new();
            }
        } else {
            cur.push(c);
        }
        i += 1;
    }
    if cur.len() > 0 {
        let ghost before = crate::editor::doc(ws@);
        ws.push(cur);
        assert(crate::editor::doc(ws@) =~= before.push(word_fold(s@, s@.len() as int).1));
    }
    ws
}

/// `words` joined by single spaces.
pub open spec fn spaced(ws: Seq<Seq<char>>) -> Seq<char> {
    crate::separators::join(ws, seq![' '])
}

fn join_spaced(ws: &Vec<Vec<char>>) -> (r: Vec<char>)
    ensures
        r@ == spaced(crate::editor::doc(ws@)),
{
    let mut out: Vec<char> = Vec::new();
    let mut k: usize = 0;
    while k < ws.len()
        invariant
            0 <= k <= ws@.len(),
            out@ == spaced(crate::editor::doc(ws@).subrange(0, k as int)),
        decreases ws@.len() - k,
    {
        if k > 0 {
            out.push(' ');
        }
        extend_with_chars(&mut out, &ws[k]);
        proof {
            let d = crate::editor::doc(ws@);
            let t = d.subrange(0, k + 1);
            assert(t.drop_last() =~= d.subrange(0, k as int));
            if k == 0 {
                assert(out@ =~= t[0]);
            } else {
                assert(out@ =~= crate::separators::join(t.drop_last(), seq![' ']) + seq![' '] + t.last());
            }
        }
        k += 1;
    }
    assert(crate::editor::doc(ws@).subrange(0, ws@.len() as int) =~= crate::editor::doc(ws@));
    out
}

/// The lookup key of a HELP query: its words, single-spaced, in upper case.
pub fn normalized_key(text: &str) -> (r: String)
    ensures
        r@ == upper_seq(spaced(words(text@))),
{
    let chars = str_chars(text);
    let ws = split_words(&chars);
    let joined = join_spaced(&ws);
    string_from_chars(&chars_upper(&joined))
}

/// `s` with control characters shown as spaces.
pub open spec fn controls_blanked(s: Seq<char>) -> Seq<char> {
    Seq::new(s.len(), |i: int| if is_control(s[i]) { ' ' } else { s[i] })
}

/// A query as it can be echoed: control characters blanked, words
/// single-spaced.
pub fn safe_display_query(key: &str) -> (r: String)
    ensures
        r@ == spaced(words(controls_blanked(key@))),
{
    let chars = str_chars(key);
    let mut blanked: Vec<char> = Vec::new();
    let mut i: usize = 0;
    while i < chars.len()
        invariant
            0 <= i <= chars@.len(),
            blanked@ == controls_blanked(chars@).subrange(0, i as int),
        decreases chars@.len() - i,
    {
        let c = chars[i];
        blanked.push(if char_is_control(c) { ' ' } else { c });
        i += 1;
        assert(blanked@ =~= controls_blanked(chars@).subrange(0, i as int));
    }
    assert(blanked@ =~= controls_blanked(chars@));
    let ws = split_words(&blanked);
    string_from_chars(&join_spaced(&ws))
}

/// The number of characters of `text`.
pub fn char_len(text: &str) -> (r: usize)
    ensures
        r == text@.len(),
{
    str_chars(text).len()
}

/// `text` split after `count` characters (all of it when shorter).
pub fn split_at_char(text: &str, count: usize) -> (r: (String, String))
    ensures
        ({
            let k = if count < text@.len() { count as int } else { text@.len() as int };
            r.0@ == text@.subrange(0, k) && r.1@ == text@.subrange(k, text@.len() as int)
        }),
{
    let chars = str_chars(text);
    let k = if count < chars.len() { count } else { chars.len() };
    (string_from_chars(&crate::text::chars_range(&chars, 0, k)), string_from_chars(&crate::text::chars_range(&chars, k, chars.len())))
}

// ---------------------------------------------------------------------------
// Wrapping
// ---------------------------------------------------------------------------

/// The state of wrapping: the finished lines, the line being filled, and
/// whether it holds text after its prefix.
pub struct WrapState {
    pub lines: Seq<Seq<char>>,
    pub current: Seq<char>,
    pub has_text: bool,
}

/// A space goes before the next text of the current line.
pub open spec fn needs_sep(current: Seq<char>, has_text: bool) -> bool {
    has_text && !(current.len() > 0 && is_ws(current.last()))
}

/// The room left on the current line once the separator is placed.
pub open spec fn room(current: Seq<char>, has_text: bool) -> int {
    let used = current.len() + (if needs_sep(current, has_text) { 1int } else { 0int });
    if used < 80 {
        80 - used
    } else {
        0
    }
}

/// The state after placing `rem`, the rest of a word: on the current line
/// when it fits, else on a new line (started with `cont`), broken at the
/// line width when it fits on no line.
pub open spec fn place(st: WrapState, rem: Seq<char>, cont: Seq<char>) -> WrapState
    decreases rem.len(), (if st.has_text { 2int } else if room(st.current, st.has_text) == 0 { 1int } else { 0int }),
{
    let sep: Seq<char> = if needs_sep(st.current, st.has_text) { seq![' '] } else { Seq::<char>::empty() };
    let avail = room(st.current, st.has_text);
    if cont.len() >= 80 {
        st
    } else if rem.len() <= avail {
        WrapState { lines: st.lines, current: st.current + sep + rem, has_text: true }
    } else if st.has_text {
        place(WrapState { lines: st.lines.push(trim_end(st.current)), current: cont, has_text: false }, rem, cont)
    } else if avail == 0 {
        place(
            WrapState {
                lines: if trim(st.current).len() > 0 { st.lines.push(trim_end(st.current)) } else { st.lines },
                current: cont,
                has_text: false,
            },
            rem,
            cont,
        )
    } else {
        let rest = rem.subrange(avail, rem.len() as int);
        let st2 = WrapState { lines: st.lines.push(trim_end(st.current + rem.subrange(0, avail))), current: cont, has_text: false };
        if rest.len() == 0 {
            st2
        } else {
            place(st2, rest, cont)
        }
    }
}

/// The state after placing the first `n` words.
pub open spec fn place_words(st: WrapState, ws: Seq<Seq<char>>, n: int, cont: Seq<char>) -> WrapState
    decreases n,
{
    if n <= 0 {
        st
    } else {
        place(place_words(st, ws, n - 1, cont), ws[n - 1], cont)
    }
}

/// The lines that wrapping `text` after `prefix` adds, continuation lines
/// starting with `cont`.
pub open spec fn wrapped(prefix: Seq<char>, text: Seq<char>, cont: Seq<char>) -> Seq<Seq<char>> {
    let ws = words(text);
    let st = place_words(WrapState { lines: Seq::empty(), current: prefix, has_text: false }, ws, ws.len() as int, cont);
    if st.has_text || trim(st.current).len() > 0 {
        st.lines.push(trim_end(st.current))
    } else {
        st.lines
    }
}

fn trim_end_chars(s: &[char]) -> (r: Vec<char>)
    ensures
        r@ == trim_end(s@),
{
    let t = crate::separators::trailing_ws_len(s);
    proof {
        crate::separators::lemma_back_ws_bound(s@);
    }
    crate::text::chars_range(s, 0, s.len() - t)
}

fn is_blank(s: &[char]) -> (r: bool)
    ensures
        r == (trim(s@).len() == 0),
{
    crate::separators::trim_chars(s).len() == 0
}

/// Appends `text` to `lines`, wrapped at whole words to the console width:
/// the first line starts with `prefix`, the others with `continuation`; a
/// word longer than a line is broken.
pub fn push_wrapped(lines: &mut Vec<String>, prefix: &str, text: &str, continuation: &str)
    requires
        continuation@.len() < 80,
    ensures
        final(lines)@.len() == old(lines)@.len() + wrapped(prefix@, text@, continuation@).len(),
        forall|i: int| 0 <= i < old(lines)@.len() ==> #[trigger] final(lines)@[i] == old(lines)@[i],
        forall|i: int|
            0 <= i < wrapped(prefix@, text@, continuation@).len() ==> #[trigger] final(lines)@[old(lines)@.len() + i]@
                == wrapped(prefix@, text@, continuation@)[i],
{
    let cont = str_chars(continuation);
    let chars = str_chars(text);
    let ws = split_words(&chars);
    let ghost wsv = crate::editor::doc(ws@);
    let ghost start = WrapState { lines: Seq::empty(), current: prefix@, has_text: false };
    let mut out: Vec<Vec<char>> = Vec::new();
    let mut current = str_chars(prefix);
    let mut has_text = false;
    let mut k: usize = 0;
    assert(crate::editor::doc(out@) =~= Seq::<Seq<char>>::empty());
    while k < ws.len()
        invariant
            cont@ == continuation@,
            cont@.len() < 80,
            wsv == crate::editor::doc(ws@),
            wsv == words(text@),
            0 <= k <= ws@.len(),
            place_words(start, wsv, k as int, cont@) == (WrapState { lines: crate::editor::doc(out@), current: current@, has_text }),
        decreases ws@.len() - k,
    {
        let mut rem = crate::text::chars_range(&ws[k], 0, ws[k].len());
        assert(rem@ =~= wsv[k as int]);
        let ghost target = place(WrapState { lines: crate::editor::doc(out@), current: current@, has_text }, rem@, cont@);
        loop
            invariant_except_break
                cont@.len() < 80,
                place(WrapState { lines: crate::editor::doc(out@), current: current@, has_text }, rem@, cont@) == target,
            ensures
                target == (WrapState { lines: crate::editor::doc(out@), current: current@, has_text }),
            decreases rem@.len(), (if has_text { 2int } else if room(current@, has_text) == 0 { 1int } else { 0int }),
        {
            let sep = has_text && !(current.len() > 0 && char_is_whitespace(current[current.len() - 1]));
            let used = current.len() as u128 + if sep { 1 } else { 0 };
            let avail: usize = if used < 80 { (80 - used) as usize } else { 0 };
            assert(avail == room(current@, has_text));
            if rem.len() <= avail {
                let ghost c0 = current@;
                assert(target == (WrapState {
                    lines: crate::editor::doc(out@),
                    current: c0 + (if sep { seq![' '] } else { Seq::<char>::empty() }) + rem@,
                    has_text: true,
                }));
                if sep {
                    current.push(' ');
                }
                extend_with_chars(&mut current, &rem);
                has_text = true;
                assert(current@ =~= c0 + (if sep { seq![' '] } else { Seq::<char>::empty() }) + rem@);
                break;
            }
            if has_text {
                let ghost d = crate::editor::doc(out@);
                out.push(trim_end_chars(&current));
                assert(crate::editor::doc(out@) =~= d.push(trim_end(current@)));
                current = crate::text::chars_range(&cont, 0, cont.len());
                assert(current@ =~= cont@);
                has_text = false;
                continue;
            }
            if avail == 0 {
                if !is_blank(&current) {
                    let ghost d = crate::editor::doc(out@);
                    out.push(trim_end_chars(&current));
                    assert(crate::editor::doc(out@) =~= d.push(trim_end(current@)));
                }
                current = crate::text::chars_range(&cont, 0, cont.len());
                assert(current@ =~= cont@);
                continue;
            }
            let mut filled = crate::text::chars_range(&current, 0, current.len());
            crate::text::extend_with_range(&mut filled, &rem, 0, avail);
            assert(filled@ =~= current@ + rem@.subrange(0, avail as int));
            let ghost d = crate::editor::doc(out@);
            out.push(trim_end_chars(&filled));
            assert(crate::editor::doc(out@) =~= d.push(trim_end(current@ + rem@.subrange(0, avail as int))));
            current = crate::text::chars_range(&cont, 0, cont.len());
            assert(current@ =~= cont@);
            rem = crate::text::chars_range(&rem, avail, rem.len());
            has_text = false;
            if rem.len() == 0 {
                break;
            }
        }
        k += 1;
    }
    assert(wsv.len() == ws@.len());
    if has_text || !is_blank(&current) {
        let ghost d = crate::editor::doc(out@);
        out.push(trim_end_chars(&current));
        assert(crate::editor::doc(out@) =~= d.push(trim_end(current@)));
    }
    let ghost w = wrapped(prefix@, text@, continuation@);
    assert(crate::editor::doc(out@) == w);
    let ghost old_lines = lines@;
    let mut j: usize = 0;
    while j < out.len()
        invariant
            0 <= j <= out@.len(),
            crate::editor::doc(out@) == w,
            lines@.len() == old_lines.len() + j,
            forall|i: int| 0 <= i < old_lines.len() ==> #[trigger] lines@[i] == old_lines[i],
            forall|i: int| 0 <= i < j ==> #[trigger] lines@[old_lines.len() + i]@ == w[i],
        decreases out@.len() - j,
    {
        lines.push(string_from_chars(&out[j]));
        j += 1;
    }
}

// ---------------------------------------------------------------------------
// Every wrapped line fits
// ---------------------------------------------------------------------------

/// Every line fits in the console width.
pub open spec fn all_fit(ls: Seq<Seq<char>>) -> bool {
    forall|i: int| 0 <= i < ls.len() ==> #[trigger] ls[i].len() <= 80
}

proof fn lemma_trim_end_len(s: Seq<char>)
    ensures
        trim_end(s).len() <= s.len(),
{
    crate::separators::lemma_back_ws_bound(s);
}

proof fn lemma_place_fits(st: WrapState, rem: Seq<char>, cont: Seq<char>)
    requires
        rem.len() > 0,
        all_fit(st.lines),
        st.current.len() <= 80,
        cont.len() < 80,
    ensures
        all_fit(place(st, rem, cont).lines),
        place(st, rem, cont).current.len() <= 80,
    decreases rem.len(), (if st.has_text { 2int } else if room(st.current, st.has_text) == 0 { 1int } else { 0int }),
{
    let sep: Seq<char> = if needs_sep(st.current, st.has_text) { seq![' '] } else { Seq::<char>::empty() };
    let avail = room(st.current, st.has_text);
    lemma_trim_end_len(st.current);
    if rem.len() <= avail {
    } else if st.has_text {
        let next = WrapState { lines: st.lines.push(trim_end(st.current)), current: cont, has_text: false };
        assert(all_fit(next.lines));
        lemma_place_fits(next, rem, cont);
    } else if avail == 0 {
        let next = WrapState {
            lines: if trim(st.current).len() > 0 { st.lines.push(trim_end(st.current)) } else { st.lines },
            current: cont,
            has_text: false,
        };
        assert(all_fit(next.lines));
        lemma_place_fits(next, rem, cont);
    } else {
        let filled = st.current + rem.subrange(0, avail);
        lemma_trim_end_len(filled);
        let rest = rem.subrange(avail, rem.len() as int);
        let st2 = WrapState { lines: st.lines.push(trim_end(filled)), current: cont, has_text: false };
        assert(all_fit(st2.lines));
        if rest.len() > 0 {
            lemma_place_fits(st2, rest, cont);
        }
    }
}

proof fn lemma_place_words_fit(st: WrapState, ws: Seq<Seq<char>>, n: int, cont: Seq<char>)
    requires
        n <= ws.len(),
        forall|i: int| 0 <= i < ws.len() ==> #[trigger] ws[i].len() > 0,
        all_fit(st.lines),
        st.current.len() <= 80,
        cont.len() < 80,
    ensures
        all_fit(place_words(st, ws, n, cont).lines),
        place_words(st, ws, n, cont).current.len() <= 80,
    decreases n,
{
    if n > 0 {
        lemma_place_words_fit(st, ws, n - 1, cont);
        lemma_place_fits(place_words(st, ws, n - 1, cont), ws[n - 1], cont);
    }
}

proof fn lemma_word_fold_nonempty(s: Seq<char>, n: int)
    requires
        0 <= n <= s.len(),
    ensures
        forall|i: int| 0 <= i < word_fold(s, n).0.len() ==> #[trigger] word_fold(s, n).0[i].len() > 0,
    decreases n,
{
    if n > 0 {
        lemma_word_fold_nonempty(s, n - 1);
        let prev = word_fold(s, n - 1);
        let cur = word_fold(s, n);
        assert forall|i: int| 0 <= i < cur.0.len() implies #[trigger] cur.0[i].len() > 0 by {
            if i < prev.0.len() {
                assert(prev.0[i].len() > 0);
            }
        }
    }
}

proof fn lemma_words_nonempty(s: Seq<char>)
    ensures
        forall|i: int| 0 <= i < words(s).len() ==> #[trigger] words(s)[i].len() > 0,
{
    lemma_word_fold_nonempty(s, s.len() as int);
}

/// HELP lines fit the console: when the prefix fits on a line and the
/// continuation leaves room for text, every wrapped line is at most 80
/// characters long.
pub proof fn wrapped_lines_fit(prefix: Seq<char>, text: Seq<char>, cont: Seq<char>)
    requires
        prefix.len() <= 80,
        cont.len() < 80,
    ensures
        all_fit(wrapped(prefix, text, cont)),
{
    let ws = words(text);
    lemma_words_nonempty(text);
    let st0 = WrapState { lines: Seq::empty(), current: prefix, has_text: false };
    lemma_place_words_fit(st0, ws, ws.len() as int, cont);
    let st = place_words(st0, ws, ws.len() as int, cont);
    lemma_trim_end_len(st.current);
}

} // verus!
