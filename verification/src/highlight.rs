//! Syntax highlighting of program lines: each token in the style of its
//! kind, and the identifier spellings that a program chose put back for
//! display.
use vstd::prelude::*;
use crate::debug_view::{
    styled, syntax_palette_for, SyntaxPalette, SyntaxTheme, BIN_STYLE, COMMENT_STYLE, HEADER_STYLE,
    HEX_STYLE, KEYWORD_STYLE, LIGHT_BIN_STYLE, LIGHT_COMMENT_STYLE, LIGHT_HEADER_STYLE,
    LIGHT_HEX_STYLE, LIGHT_KEYWORD_STYLE, LIGHT_LINE_NUMBER_STYLE, LIGHT_NUMBER_STYLE,
    LIGHT_OTHER_STYLE, LIGHT_STRING_STYLE, LIGHT_VARIABLE_STYLE, LINE_NUMBER_STYLE, NUMBER_STYLE,
    OTHER_STYLE, RESET, STRING_STYLE, VARIABLE_STYLE,
};
use crate::file_commands::quote_from;
use crate::immediate::{help_immediate, help_uppercased, is_help_immediate_line, uppercase_leading_help};
use crate::normalize::{
    ident_char, ident_char_at, ident_end, ident_end_at, ident_start, is_keyword_word, is_known_word,
    lemma_ident_end, lemma_quote_from, lemma_run_end, normalized,
    normalized_editing, normalize_code, normalize_code_for_editing, token_boundary, BasicWords,
};
use crate::number_tokens::run_end;
use crate::separators::{comment_split, line_number_end, split_line_number, split_single_quote_comment};
use crate::text::{
    char_is_digit, chars_eq, chars_upper, eq_ic, extend_with_chars, extend_with_range,
    extend_with_str, is_digit, is_hex_digit, is_ws, push_repeated, repeat_char, str_chars,
    string_from_chars, upper_seq,
};

verus! {

/// The escape sequences that a highlighted line uses, by kind of text.
pub struct Styles {
    pub keyword: Seq<char>,
    pub comment: Seq<char>,
    pub line_number: Seq<char>,
    pub variable: Seq<char>,
    pub number: Seq<char>,
    pub string: Seq<char>,
    pub hex: Seq<char>,
    pub bin: Seq<char>,
    pub other: Seq<char>,
    pub header: Seq<char>,
}

/// The styles of a palette.
pub open spec fn styles_of(p: SyntaxPalette) -> Styles {
    Styles {
        keyword: p.keyword@,
        comment: p.comment@,
        line_number: p.line_number@,
        variable: p.variable@,
        number: p.number@,
        string: p.string@,
        hex: p.hex@,
        bin: p.bin@,
        other: p.other@,
        header: p.header@,
    }
}

/// The styles of a theme.
pub open spec fn theme_styles(theme: SyntaxTheme) -> Styles {
    match theme {
        SyntaxTheme::Dark => Styles {
            keyword: KEYWORD_STYLE@,
            comment: COMMENT_STYLE@,
            line_number: LINE_NUMBER_STYLE@,
            variable: VARIABLE_STYLE@,
            number: NUMBER_STYLE@,
            string: STRING_STYLE@,
            hex: HEX_STYLE@,
            bin: BIN_STYLE@,
            other: OTHER_STYLE@,
            header: HEADER_STYLE@,
        },
        SyntaxTheme::Light => Styles {
            keyword: LIGHT_KEYWORD_STYLE@,
            comment: LIGHT_COMMENT_STYLE@,
            line_number: LIGHT_LINE_NUMBER_STYLE@,
            variable: LIGHT_VARIABLE_STYLE@,
            number: LIGHT_NUMBER_STYLE@,
            string: LIGHT_STRING_STYLE@,
            hex: LIGHT_HEX_STYLE@,
            bin: LIGHT_BIN_STYLE@,
            other: LIGHT_OTHER_STYLE@,
            header: LIGHT_HEADER_STYLE@,
        },
    }
}

fn theme_palette(theme: SyntaxTheme) -> (p: SyntaxPalette)
    ensures
        styles_of(p) == theme_styles(theme),
{
    syntax_palette_for(theme)
}

/// A `+` or `-` that starts a signed number: not after an identifier
/// character, and before a digit or a `.` and a digit.
pub open spec fn signed_number_start(s: Seq<char>, i: int) -> bool {
    &&& (s[i] == '+' || s[i] == '-')
    &&& !(i > 0 && ident_char(s[i - 1]))
    &&& i + 1 < s.len()
    &&& (is_digit(s[i + 1]) || (s[i + 1] == '.' && i + 2 < s.len() && is_digit(s[i + 2])))
}

/// A number token starts at `i`: a digit, a `.` before a digit, a signed
/// number, or `&H` / `&X` in any case.
pub open spec fn number_like_start(s: Seq<char>, i: int) -> bool {
    ||| is_digit(s[i])
    ||| (s[i] == '.' && i + 1 < s.len() && is_digit(s[i + 1]))
    ||| signed_number_start(s, i)
    ||| (s[i] == '&' && i + 1 < s.len() && (s[i + 1] == 'h' || s[i + 1] == 'H' || s[i + 1] == 'x' || s[i + 1] == 'X'))
}

/// The end of the run of hexadecimal digits from `i`.
pub open spec fn hex_end(s: Seq<char>, i: int) -> int
    decreases s.len() - i,
{
    if 0 <= i < s.len() && is_hex_digit(s[i]) {
        hex_end(s, i + 1)
    } else {
        i
    }
}

/// The end of a decimal number token from `i`: sign, digits and points,
/// then an exponent with an optional sign and digits.
pub open spec fn decimal_token_end(s: Seq<char>, i: int) -> int {
    let j = if s[i] == '+' || s[i] == '-' {
        i + 2
    } else {
        i + 1
    };
    let m = run_end(s, j, false, true);
    if m < s.len() && (s[m] == 'e' || s[m] == 'E') {
        let a = if m + 1 < s.len() && (s[m + 1] == '+' || s[m + 1] == '-') {
            m + 2
        } else {
            m + 1
        };
        run_end(s, a, false, false)
    } else {
        m
    }
}

/// The highlighted form of the token at `i`, where the next one starts,
/// and the state after it: whether a `DEF` was just read, and whether a
/// procedure name is expected (after `CALL` or `DEF SUB`).
pub open spec fn highlight_token(
    words: BasicWords,
    st: Styles,
    help: bool,
    s: Seq<char>,
    i: int,
    after_def: bool,
    expect_name: bool,
) -> (Seq<char>, int, bool, bool) {
    let n = s.len() as int;
    let c = s[i];
    if c == '"' {
        let e = match quote_from(s, i + 1) {
            Some(j) => j + 1,
            None => n,
        };
        (styled(st.string, s.subrange(i, e)), e, after_def, expect_name)
    } else if ident_start(c) {
        let e = ident_end(s, i + 1);
        let word = s.subrange(i, e);
        let up = upper_seq(word);
        if help && up == "HELP"@ && (forall|k: int| 0 <= k < i ==> is_ws(#[trigger] s[k])) {
            (styled(st.keyword, "HELP"@), e, after_def, expect_name)
        } else if expect_name {
            (styled(st.keyword, up), e, false, false)
        } else if up == "REM"@ && token_boundary(s, i, e) {
            (styled(st.keyword, "REM"@) + styled(st.comment, s.subrange(e, n)), n, after_def, expect_name)
        } else if words.is_keyword(up) {
            (
                styled(st.keyword, up),
                e,
                up == "DEF"@,
                up != "DEF"@ && (up == "CALL"@ || (after_def && up == "SUB"@)),
            )
        } else if words.is_other(up) || (up.len() >= 2 && up.subrange(0, 2) == "FN"@) {
            (styled(st.other, up), e, false, expect_name)
        } else {
            (styled(st.variable, word), e, false, expect_name)
        }
    } else if number_like_start(s, i) {
        if c == '&' {
            let e = hex_end(s, i + 2);
            let digits = s.subrange(i + 2, e);
            if eq_ic(s[i + 1], 'h') {
                (st.header + "&H"@ + st.hex + upper_seq(digits) + RESET@, e, after_def, expect_name)
            } else {
                (st.header + "&X"@ + st.bin + digits + RESET@, e, after_def, expect_name)
            }
        } else {
            let e = decimal_token_end(s, i);
            (styled(st.number, s.subrange(i, e)), e, after_def, expect_name)
        }
    } else {
        (styled(st.other, seq![c]), i + 1, after_def, expect_name)
    }
}

proof fn lemma_hex_end(s: Seq<char>, i: int)
    requires
        0 <= i <= s.len(),
    ensures
        i <= hex_end(s, i) <= s.len(),
    decreases s.len() - i,
{
    if 0 <= i < s.len() && is_hex_digit(s[i]) {
        lemma_hex_end(s, i + 1);
    }
}

/// Each highlighted token ends after it starts, within the line.
pub proof fn lemma_highlight_token_advances(
    words: BasicWords,
    st: Styles,
    help: bool,
    s: Seq<char>,
    i: int,
    after_def: bool,
    expect_name: bool,
)
    requires
        0 <= i < s.len(),
    ensures
        i < highlight_token(words, st, help, s, i, after_def, expect_name).1 <= s.len(),
{
    let c = s[i];
    if c == '"' {
        lemma_quote_from(s, i + 1);
    } else if ident_start(c) {
        lemma_ident_end(s, i + 1);
    } else if number_like_start(s, i) {
        if c == '&' {
            lemma_hex_end(s, i + 2);
        } else {
            let j = if c == '+' || c == '-' {
                i + 2
            } else {
                i + 1
            };
            lemma_run_end(s, j, false, true);
            let m = run_end(s, j, false, true);
            if m < s.len() && (s[m] == 'e' || s[m] == 'E') {
                let a = if m + 1 < s.len() && (s[m + 1] == '+' || s[m + 1] == '-') {
                    m + 2
                } else {
                    m + 1
                };
                lemma_run_end(s, a, false, false);
            }
        }
    }
}

/// The highlighted form of `s` from position `i` in the given state.
pub open spec fn highlighted_from(
    words: BasicWords,
    st: Styles,
    help: bool,
    s: Seq<char>,
    i: int,
    after_def: bool,
    expect_name: bool,
) -> Seq<char>
    decreases s.len() - i,
{
    if i < 0 || i >= s.len() {
        Seq::empty()
    } else {
        proof {
            lemma_highlight_token_advances(words, st, help, s, i, after_def, expect_name);
        }
        let (text, next, d, x) = highlight_token(words, st, help, s, i, after_def, expect_name);
        text + highlighted_from(words, st, help, s, next, d, x)
    }
}

fn push_styled(out: &mut Vec<char>, style: &str, text: &[char])
    ensures
        final(out)@ == old(out)@ + styled(style@, text@),
{
    let ghost start = out@;
    extend_with_str(out, style);
    extend_with_chars(out, text);
    extend_with_str(out, RESET);
    assert(out@ =~= start + styled(style@, text@));
}

fn run_end_at(s: &[char], i: usize, dots: bool) -> (r: usize)
    requires
        i <= s@.len(),
    ensures
        r as int == run_end(s@, i as int, false, dots),
{
    let mut e = i;
    while e < s.len() && (char_is_digit(s[e]) || (dots && s[e] == '.'))
        invariant
            i <= e <= s@.len(),
            run_end(s@, i as int, false, dots) == run_end(s@, e as int, false, dots),
        decreases s@.len() - e,
    {
        e += 1;
    }
    e
}

fn hex_end_at(s: &[char], i: usize) -> (r: usize)
    requires
        i <= s@.len(),
    ensures
        r as int == hex_end(s@, i as int),
{
    let mut e = i;
    while e < s.len() && (char_is_digit(s[e]) || ('a' <= s[e] && s[e] <= 'f') || ('A' <= s[e] && s[e] <= 'F'))
        invariant
            i <= e <= s@.len(),
            hex_end(s@, i as int) == hex_end(s@, e as int),
        decreases s@.len() - e,
    {
        e += 1;
    }
    e
}

fn all_whitespace_before(s: &[char], i: usize) -> (r: bool)
    requires
        i <= s@.len(),
    ensures
        r == (forall|k: int| 0 <= k < i ==> is_ws(#[trigger] s@[k])),
{
    let mut k: usize = 0;
    while k < i
        invariant
            0 <= k <= i <= s@.len(),
            forall|j: int| 0 <= j < k ==> is_ws(#[trigger] s@[j]),
        decreases i - k,
    {
        if !crate::text::char_is_whitespace(s[k]) {
            return false;
        }
        k += 1;
    }
    true
}

fn is_word(w: &[char], text: &str) -> (r: bool)
    ensures
        r == (w@ == text@),
{
    chars_eq(w, &str_chars(text))
}

/// The highlighted form of the token of `s` at `i`, where the next one
/// starts, and the state after it.
fn next_highlighted(
    words: &BasicWords,
    pal: &SyntaxPalette,
    help: bool,
    s: &[char],
    i: usize,
    after_def: bool,
    expect_name: bool,
) -> (r: (Vec<char>, usize, bool, bool))
    requires
        i < s@.len(),
    ensures
        ({
            let t = highlight_token(*words, styles_of(*pal), help, s@, i as int, after_def, expect_name);
            r.0@ == t.0 && r.1 as int == t.1 && r.2 == t.2 && r.3 == t.3
        }),
{
    let n = s.len();
    let c = s[i];
    let mut out: Vec<char> = Vec::new();
    proof {
        lemma_highlight_token_advances(*words, styles_of(*pal), help, s@, i as int, after_def, expect_name);
    }
    if c == '"' {
        let mut j = i + 1;
        while j < n && s[j] != '"'
            invariant
                i + 1 <= j <= n,
                n == s@.len(),
                quote_from(s@, (i + 1) as int) == quote_from(s@, j as int),
            decreases n - j,
        {
            j += 1;
        }
        let e = if j < n {
            j + 1
        } else {
            n
        };
        push_styled(&mut out, pal.string, &crate::text::chars_range(s, i, e));
        return (out, e, after_def, expect_name);
    }
    if crate::text::char_is_alpha(c) || c == '_' {
        let e = ident_end_at(s, i + 1);
        proof {
            lemma_ident_end(s@, i + 1);
        }
        let word = crate::text::chars_range(s, i, e);
        let up = chars_upper(&word);
        proof {
            reveal_strlit("HELP");
            reveal_strlit("REM");
            reveal_strlit("DEF");
            reveal_strlit("CALL");
            reveal_strlit("SUB");
            reveal_strlit("FN");
        }
        if help && is_word(&up, "HELP") && all_whitespace_before(s, i) {
            push_styled(&mut out, pal.keyword, &str_chars("HELP"));
            return (out, e, after_def, expect_name);
        }
        if expect_name {
            push_styled(&mut out, pal.keyword, &up);
            return (out, e, false, false);
        }
        let bounded = (i == 0 || !ident_char_at(s[i - 1])) && (e >= n || !ident_char_at(s[e]));
        if is_word(&up, "REM") && bounded {
            push_styled(&mut out, pal.keyword, &str_chars("REM"));
            push_styled(&mut out, pal.comment, &crate::text::chars_range(s, e, n));
            return (out, n, after_def, expect_name);
        }
        if is_keyword_word(words, &up) {
            push_styled(&mut out, pal.keyword, &up);
            let is_def = is_word(&up, "DEF");
            let names_next = !is_def && (is_word(&up, "CALL") || (after_def && is_word(&up, "SUB")));
            return (out, e, is_def, names_next);
        }
        let fn_name = up.len() >= 2 && up[0] == 'F' && up[1] == 'N';
        proof {
            if up@.len() >= 2 {
                assert(fn_name == (up@.subrange(0, 2) == "FN"@)) by {
                    if up@.subrange(0, 2) == "FN"@ {
                        assert(up@[0] == up@.subrange(0, 2)[0]);
                        assert(up@[1] == up@.subrange(0, 2)[1]);
                    }
                    if fn_name {
                        assert(up@.subrange(0, 2) =~= "FN"@);
                    }
                }
            }
        }
        let other = crate::normalize::is_other_word(words, &up);
        if other || fn_name {
            push_styled(&mut out, pal.other, &up);
        } else {
            push_styled(&mut out, pal.variable, &word);
        }
        return (out, e, false, expect_name);
    }
    let signed = (c == '+' || c == '-') && !(i > 0 && ident_char_at(s[i - 1])) && i + 1 < n && (
    char_is_digit(s[i + 1]) || (s[i + 1] == '.' && i + 2 < n && char_is_digit(s[i + 2])));
    let hex_start = c == '&' && i + 1 < n && (s[i + 1] == 'h' || s[i + 1] == 'H' || s[i + 1] == 'x' || s[i + 1] == 'X');
    if char_is_digit(c) || (c == '.' && i + 1 < n && char_is_digit(s[i + 1])) || signed || hex_start {
        if c == '&' {
            let e = hex_end_at(s, i + 2);
            proof {
                lemma_hex_end(s@, i + 2);
            }
            let digits = crate::text::chars_range(s, i + 2, e);
            extend_with_str(&mut out, pal.header);
            if s[i + 1] == 'h' || s[i + 1] == 'H' {
                extend_with_str(&mut out, "&H");
                extend_with_str(&mut out, pal.hex);
                extend_with_chars(&mut out, &chars_upper(&digits));
            } else {
                extend_with_str(&mut out, "&X");
                extend_with_str(&mut out, pal.bin);
                extend_with_chars(&mut out, &digits);
            }
            extend_with_str(&mut out, RESET);
            return (out, e, after_def, expect_name);
        }
        let j = if c == '+' || c == '-' {
            i + 2
        } else {
            i + 1
        };
        let m = run_end_at(s, j, true);
        let e = if m < n && (s[m] == 'e' || s[m] == 'E') {
            let a = if m + 1 < n && (s[m + 1] == '+' || s[m + 1] == '-') {
                m + 2
            } else {
                m + 1
            };
            run_end_at(s, a, false)
        } else {
            m
        };
        push_styled(&mut out, pal.number, &crate::text::chars_range(s, i, e));
        return (out, e, after_def, expect_name);
    }
    let mut one: Vec<char> = Vec::new();
    one.push(c);
    push_styled(&mut out, pal.other, &one);
    (out, i + 1, after_def, expect_name)
}

/// The main part of a line (after its line number, before its comment) in
/// highlighted form.
pub fn highlight_main(words: &BasicWords, pal: &SyntaxPalette, text: &[char], help: bool) -> (r: Vec<char>)
    ensures
        r@ == highlighted_from(*words, styles_of(*pal), help, text@, 0, false, false),
{
    let ghost st = styles_of(*pal);
    let mut out: Vec<char> = Vec::new();
    let mut i: usize = 0;
    let mut after_def = false;
    let mut expect_name = false;
    while i < text.len()
        invariant
            0 <= i <= text@.len(),
            st == styles_of(*pal),
            highlighted_from(*words, st, help, text@, 0, false, false) == out@ + highlighted_from(
                *words,
                st,
                help,
                text@,
                i as int,
                after_def,
                expect_name,
            ),
        decreases text@.len() - i,
    {
        proof {
            lemma_highlight_token_advances(*words, st, help, text@, i as int, after_def, expect_name);
        }
        let (piece, next, d, x) = next_highlighted(words, pal, help, text, i, after_def, expect_name);
        let ghost before = out@;
        extend_with_chars(&mut out, &piece);
        proof {
            let rest = highlighted_from(*words, st, help, text@, next as int, d, x);
            assert(before + (piece@ + rest) =~= out@ + rest);
        }
        i = next;
        after_def = d;
        expect_name = x;
    }
    out
}

/// The display spelling that `cases` gives for the upper-case word `key`:
/// the first entry for it.
pub open spec fn case_lookup(key: Seq<char>, cases: Seq<(String, String)>, k: int) -> Option<Seq<char>>
    decreases cases.len() - k,
{
    if k < 0 || k >= cases.len() {
        None
    } else if cases[k].0@ == key {
        Some(cases[k].1@)
    } else {
        case_lookup(key, cases, k + 1)
    }
}

/// The token at `i` with its display spelling, where the next one starts,
/// and whether a string is open after it. Strings and comments keep their
/// text; an identifier that `cases` lists takes the spelling given there.
pub open spec fn case_token(s: Seq<char>, i: int, in_string: bool, cases: Seq<(String, String)>) -> (Seq<char>, int, bool) {
    let n = s.len() as int;
    let c = s[i];
    if c == '"' {
        (seq![c], i + 1, !in_string)
    } else if !in_string && c == '\'' {
        (s.subrange(i, n), n, in_string)
    } else if !in_string && ident_start(c) {
        let e = ident_end(s, i + 1);
        let word = s.subrange(i, e);
        if upper_seq(word) == "REM"@ && token_boundary(s, i, e) {
            (word + s.subrange(e, n), n, in_string)
        } else {
            match case_lookup(upper_seq(word), cases, 0) {
                Some(display) => (display, e, in_string),
                None => (word, e, in_string),
            }
        }
    } else {
        (seq![c], i + 1, in_string)
    }
}

/// Each token of the case pass ends after it starts, within the line.
pub proof fn lemma_case_token_advances(s: Seq<char>, i: int, in_string: bool, cases: Seq<(String, String)>)
    requires
        0 <= i < s.len(),
    ensures
        i < case_token(s, i, in_string, cases).1 <= s.len(),
{
    if !in_string && ident_start(s[i]) {
        lemma_ident_end(s, i + 1);
    }
}

/// `s` from `i` with the display spellings of `cases`.
pub open spec fn cased_from(s: Seq<char>, i: int, in_string: bool, cases: Seq<(String, String)>) -> Seq<char>
    decreases s.len() - i,
{
    if i < 0 || i >= s.len() {
        Seq::empty()
    } else {
        proof {
            lemma_case_token_advances(s, i, in_string, cases);
        }
        let (text, next, open) = case_token(s, i, in_string, cases);
        text + cased_from(s, next, open, cases)
    }
}

/// `s` with the display spellings of `cases`; unchanged when there are none.
pub open spec fn cased(s: Seq<char>, cases: Seq<(String, String)>) -> Seq<char> {
    if cases.len() == 0 {
        s
    } else {
        cased_from(s, 0, false, cases)
    }
}

/// A line in highlighted form: its line number, its main part token by
/// token, and its comment, each in its style.
pub open spec fn rendered(words: BasicWords, st: Styles, line: Seq<char>, help: bool) -> Seq<char> {
    let (main, comment) = comment_split(line);
    let (prefix, rest) = match line_number_end(main) {
        Some(e) => (styled(st.line_number, main.subrange(0, e)), main.subrange(e, main.len() as int)),
        None => (Seq::empty(), main),
    };
    prefix + highlighted_from(words, st, help, rest, 0, false, false) + match comment {
        None => Seq::empty(),
        Some((spaces, text)) => repeat_char(' ', spaces) + seq!['\''] + styled(st.comment, text),
    }
}

/// A normalised line as it is shown: with the display spellings of
/// `cases`, a leading `HELP` upper-cased where the line is a help request,
/// and, with `ansi`, highlighted.
pub open spec fn highlighted_code(
    words: BasicWords,
    st: Styles,
    line: Seq<char>,
    ansi: bool,
    cases: Seq<(String, String)>,
) -> Seq<char> {
    let l = cased(line, cases);
    let help = help_immediate(l);
    let shown = if help {
        help_uppercased(l)
    } else {
        l
    };
    if ansi {
        rendered(words, st, shown, help)
    } else {
        shown
    }
}

/// A line shown as it was typed: with the display spellings of `cases`
/// and, with `ansi`, highlighted.
pub open spec fn highlighted_raw(
    words: BasicWords,
    st: Styles,
    line: Seq<char>,
    ansi: bool,
    cases: Seq<(String, String)>,
) -> Seq<char> {
    let l = cased(line, cases);
    if ansi {
        rendered(words, st, l, help_immediate(l))
    } else {
        l
    }
}

fn case_display(key: &[char], cases: &[(String, String)]) -> (r: Option<Vec<char>>)
    ensures
        match r {
            None => case_lookup(key@, cases@, 0) is None,
            Some(d) => case_lookup(key@, cases@, 0) == Some(d@),
        },
{
    let mut k: usize = 0;
    while k < cases.len()
        invariant
            0 <= k <= cases@.len(),
            case_lookup(key@, cases@, 0) == case_lookup(key@, cases@, k as int),
        decreases cases@.len() - k,
    {
        if chars_eq(&str_chars(cases[k].0.as_str()), key) {
            assert(cases@[k as int].0@ == key@);
            return Some(str_chars(cases[k].1.as_str()));
        }
        k += 1;
    }
    None
}

/// `source` with the identifier spellings of `cases` put back for display
/// (keys are upper-case names); strings and comments stay as they are.
pub fn apply_identifier_case_for_display(source: &[char], cases: &[(String, String)]) -> (r: Vec<char>)
    ensures
        r@ == cased(source@, cases@),
{
    if cases.len() == 0 {
        return crate::text::chars_range(source, 0, source.len());
    }
    let ghost s = source@;
    let mut out: Vec<char> = Vec::new();
    let mut i: usize = 0;
    let mut in_string = false;
    let n = source.len();
    while i < n
        invariant
            0 <= i <= n,
            n == s.len(),
            s == source@,
            cases@.len() > 0,
            cased(s, cases@) == out@ + cased_from(s, i as int, in_string, cases@),
        decreases n - i,
    {
        proof {
            lemma_case_token_advances(s, i as int, in_string, cases@);
            reveal_strlit("REM");
        }
        let ghost before = out@;
        let ghost t = case_token(s, i as int, in_string, cases@);
        let c = source[i];
        let next: usize;
        let open: bool;
        if c == '"' {
            out.push(c);
            next = i + 1;
            open = !in_string;
        } else if !in_string && c == '\'' {
            extend_with_range(&mut out, source, i, n);
            next = n;
            open = in_string;
        } else if !in_string && (crate::text::char_is_alpha(c) || c == '_') {
            let e = ident_end_at(source, i + 1);
            proof {
                lemma_ident_end(s, i + 1);
            }
            let word = crate::text::chars_range(source, i, e);
            let up = chars_upper(&word);
            let bounded = (i == 0 || !ident_char_at(source[i - 1])) && (e >= n || !ident_char_at(source[e]));
            if is_word(&up, "REM") && bounded {
                extend_with_chars(&mut out, &word);
                extend_with_range(&mut out, source, e, n);
                next = n;
            } else {
                match case_display(&up, cases) {
                    Some(display) => extend_with_chars(&mut out, &display),
                    None => extend_with_chars(&mut out, &word),
                }
                next = e;
            }
            open = in_string;
        } else {
            out.push(c);
            next = i + 1;
            open = in_string;
        }
        proof {
            assert(out@ =~= before + t.0);
            assert(next as int == t.1 && open == t.2);
            let rest = cased_from(s, next as int, open, cases@);
            assert(before + (t.0 + rest) =~= out@ + rest);
        }
        i = next;
        in_string = open;
    }
    out
}

/// Renders a line in highlighted form.
fn render_line(words: &BasicWords, pal: &SyntaxPalette, line: &[char], help: bool) -> (r: Vec<char>)
    ensures
        r@ == rendered(*words, styles_of(*pal), line@, help),
{
    let (main, comment) = split_single_quote_comment(line);
    let mut out: Vec<char> = Vec::new();
    let rest = match split_line_number(&main) {
        Some((prefix, body)) => {
            push_styled(&mut out, pal.line_number, &prefix);
            body
        },
        None => main,
    };
    let ghost head = out@;
    let body = highlight_main(words, pal, &rest, help);
    extend_with_chars(&mut out, &body);
    let ghost with_body = out@;
    proof {
        let (m, c) = comment_split(line@);
        assert(m == main@);
    }
    match comment {
        None => {
            assert(out@ =~= with_body + Seq::<char>::empty());
        },
        Some((spaces, text)) => {
            push_repeated(&mut out, ' ', spaces);
            out.push('\'');
            push_styled(&mut out, pal.comment, &text);
            assert(out@ =~= with_body + (repeat_char(' ', spaces as nat) + seq!['\''] + styled(styles_of(*pal).comment, text@)));
        },
    }
    out
}

fn shown_line(words: &BasicWords, pal: &SyntaxPalette, line: &[char], ansi: bool, cases: &[(String, String)]) -> (r: Vec<char>)
    ensures
        r@ == highlighted_code(*words, styles_of(*pal), line@, ansi, cases@),
{
    let l = apply_identifier_case_for_display(line, cases);
    let help = is_help_immediate_line(string_from_chars(&l).as_str());
    let shown = if help {
        let mut t = string_from_chars(&l);
        uppercase_leading_help(&mut t);
        str_chars(t.as_str())
    } else {
        l
    };
    if ansi {
        render_line(words, pal, &shown, help)
    } else {
        shown
    }
}

/// The line in normalised form as it is shown, highlighted with `ansi` in
/// the styles of `theme`, with the identifier spellings of `cases`.
pub fn syntax_highlight_with_cases(
    words: &BasicWords,
    line: &str,
    ansi: bool,
    cases: &[(String, String)],
    theme: SyntaxTheme,
    forms: &[(String, String)],
) -> (r: String)
    ensures
        r@ == highlighted_code(*words, theme_styles(theme), normalized(*words, line@, forms@), ansi, cases@),
{
    let pal = theme_palette(theme);
    let normalized_line = normalize_code(words, line, forms);
    string_from_chars(&shown_line(words, &pal, &str_chars(normalized_line.as_str()), ansi, cases))
}

/// The line in normalised form as it is shown, highlighted with `ansi` in
/// the styles of `theme`.
pub fn syntax_highlight(
    words: &BasicWords,
    line: &str,
    ansi: bool,
    theme: SyntaxTheme,
    forms: &[(String, String)],
) -> (r: String)
    ensures
        r@ == highlighted_code(*words, theme_styles(theme), normalized(*words, line@, forms@), ansi, Seq::empty()),
{
    let no_cases: Vec<(String, String)> = Vec::new();
    syntax_highlight_with_cases(words, line, ansi, no_cases.as_slice(), theme, forms)
}

/// The line as it is shown while the cursor stands at `cursor`: normalised
/// for editing, then as `syntax_highlight_with_cases`.
pub fn syntax_highlight_editing_with_cases(
    words: &BasicWords,
    line: &str,
    cursor: usize,
    ansi: bool,
    cases: &[(String, String)],
    theme: SyntaxTheme,
    forms: &[(String, String)],
) -> (r: String)
    ensures
        r@ == highlighted_code(
            *words,
            theme_styles(theme),
            normalized_editing(*words, line@, cursor as int, forms@),
            ansi,
            cases@,
        ),
{
    let pal = theme_palette(theme);
    let normalized_line = normalize_code_for_editing(words, line, cursor, forms);
    string_from_chars(&shown_line(words, &pal, &str_chars(normalized_line.as_str()), ansi, cases))
}

/// The line as it was typed, with the identifier spellings of `cases` and,
/// with `ansi`, highlighted in the styles of `theme`.
pub fn syntax_highlight_raw_with_cases(
    words: &BasicWords,
    line: &str,
    ansi: bool,
    cases: &[(String, String)],
    theme: SyntaxTheme,
) -> (r: String)
    ensures
        r@ == highlighted_raw(*words, theme_styles(theme), line@, ansi, cases@),
{
    let pal = theme_palette(theme);
    let l = apply_identifier_case_for_display(&str_chars(line), cases);
    if ansi {
        let help = is_help_immediate_line(string_from_chars(&l).as_str());
        string_from_chars(&render_line(words, &pal, &l, help))
    } else {
        string_from_chars(&l)
    }
}

/// Identifier spellings as pairs of upper-case key and display spelling.
pub open spec fn pairs_view(v: Seq<(String, String)>) -> Seq<(Seq<char>, Seq<char>)> {
    Seq::new(v.len(), |k: int| (v[k].0@, v[k].1@))
}

/// `cases` has an entry for `key`.
pub open spec fn has_key(cases: Seq<(Seq<char>, Seq<char>)>, key: Seq<char>) -> bool {
    exists|k: int| 0 <= k < cases.len() && #[trigger] cases[k].0 == key
}

/// `cases` with `entry` added unless its key has an entry already.
pub open spec fn add_entry(cases: Seq<(Seq<char>, Seq<char>)>, entry: (Seq<char>, Seq<char>)) -> Seq<(Seq<char>, Seq<char>)> {
    if has_key(cases, entry.0) {
        cases
    } else {
        cases.push(entry)
    }
}

/// `cases` with the spellings `spelt` added in order, the first spelling of
/// each name winning.
pub open spec fn add_spellings(cases: Seq<(Seq<char>, Seq<char>)>, spelt: Seq<Seq<char>>) -> Seq<(Seq<char>, Seq<char>)>
    decreases spelt.len(),
{
    if spelt.len() == 0 {
        cases
    } else {
        add_entry(add_spellings(cases, spelt.drop_last()), (upper_seq(spelt.last()), spelt.last()))
    }
}

/// `cases` with the entries of `fallback` added in order where their keys
/// have none yet.
pub open spec fn add_fallback(cases: Seq<(Seq<char>, Seq<char>)>, fallback: Seq<(Seq<char>, Seq<char>)>) -> Seq<(Seq<char>, Seq<char>)>
    decreases fallback.len(),
{
    if fallback.len() == 0 {
        cases
    } else {
        add_entry(add_fallback(cases, fallback.drop_last()), fallback.last())
    }
}

/// The identifier of the token at `i` whose spelling counts (none for a
/// word of the dialect or an `FN` name), where the next token starts, and
/// whether a string is open after it; a `REM` ends the line.
pub open spec fn spelling_token(words: BasicWords, s: Seq<char>, i: int, in_string: bool) -> (Option<Seq<char>>, int, bool) {
    let n = s.len() as int;
    let c = s[i];
    if c == '"' {
        (None, i + 1, !in_string)
    } else if in_string {
        (None, i + 1, in_string)
    } else if ident_start(c) {
        let e = ident_end(s, i + 1);
        let word = s.subrange(i, e);
        let up = upper_seq(word);
        if up == "REM"@ && token_boundary(s, i, e) {
            (None, n, in_string)
        } else if !(up.len() >= 2 && up.subrange(0, 2) == "FN"@) && !words.knows(up) {
            (Some(word), e, in_string)
        } else {
            (None, e, in_string)
        }
    } else {
        (None, i + 1, in_string)
    }
}

/// Each spelling token ends after it starts, within the line.
pub proof fn lemma_spelling_token_advances(words: BasicWords, s: Seq<char>, i: int, in_string: bool)
    requires
        0 <= i < s.len(),
    ensures
        i < spelling_token(words, s, i, in_string).1 <= s.len(),
{
    if !in_string && ident_start(s[i]) {
        lemma_ident_end(s, i + 1);
    }
}

/// The identifier spellings of `s` from `i`, in order.
pub open spec fn spellings_from(words: BasicWords, s: Seq<char>, i: int, in_string: bool) -> Seq<Seq<char>>
    decreases s.len() - i,
{
    if i < 0 || i >= s.len() {
        Seq::empty()
    } else {
        proof {
            lemma_spelling_token_advances(words, s, i, in_string);
        }
        let (word, next, open) = spelling_token(words, s, i, in_string);
        (match word {
            Some(w) => seq![w],
            None => Seq::empty(),
        }) + spellings_from(words, s, next, open)
    }
}

/// The identifier spellings of a program line: those of its code after the
/// line number and before any comment.
pub open spec fn line_spellings(words: BasicWords, line: Seq<char>) -> Seq<Seq<char>> {
    let code = match line_number_end(line) {
        Some(e) => line.subrange(e, line.len() as int),
        None => line,
    };
    spellings_from(words, comment_split(code).0, 0, false)
}

/// The identifier spellings of the first `n` lines, in order.
pub open spec fn lines_spellings(words: BasicWords, lines: Seq<Seq<char>>, n: int) -> Seq<Seq<char>>
    decreases n,
{
    if n <= 0 {
        Seq::empty()
    } else {
        lines_spellings(words, lines, n - 1) + line_spellings(words, lines[n - 1])
    }
}

/// The identifier spellings that a program shows: each name as first spelt
/// in the program, then the `fallback` spellings of names it does not spell.
pub open spec fn program_cases(words: BasicWords, lines: Seq<Seq<char>>, fallback: Seq<(Seq<char>, Seq<char>)>) -> Seq<(Seq<char>, Seq<char>)> {
    add_fallback(add_spellings(Seq::empty(), lines_spellings(words, lines, lines.len() as int)), fallback)
}

fn find_key(cases: &Vec<(String, String)>, key: &[char]) -> (r: bool)
    ensures
        r == has_key(pairs_view(cases@), key@),
{
    let mut k: usize = 0;
    while k < cases.len()
        invariant
            0 <= k <= cases@.len(),
            forall|j: int| 0 <= j < k ==> #[trigger] pairs_view(cases@)[j].0 != key@,
        decreases cases@.len() - k,
    {
        if chars_eq(&str_chars(cases[k].0.as_str()), key) {
            assert(pairs_view(cases@)[k as int].0 == key@);
            return true;
        }
        k += 1;
    }
    false
}

fn push_entry(cases: &mut Vec<(String, String)>, key: &[char], display: &[char])
    ensures
        pairs_view(final(cases)@) == add_entry(pairs_view(old(cases)@), (key@, display@)),
{
    if !find_key(cases, key) {
        let ghost before = pairs_view(cases@);
        cases.push((string_from_chars(key), string_from_chars(display)));
        assert(pairs_view(cases@) =~= before.push((key@, display@)));
    }
}

/// The spelling of each identifier as a program writes it first, then the
/// `fallback` spellings of the names the program does not write; keys are
/// upper case.
pub fn editor_identifier_cases(
    words: &BasicWords,
    lines: &[Vec<char>],
    fallback: &[(String, String)],
) -> (r: Vec<(String, String)>)
    ensures
        pairs_view(r@) == program_cases(
            *words,
            Seq::new(lines@.len(), |k: int| lines@[k]@),
            pairs_view(fallback@),
        ),
{
    let ghost all_lines = Seq::new(lines@.len(), |k: int| lines@[k]@);
    let mut cases: Vec<(String, String)> = Vec::new();
    let mut j: usize = 0;
    assert(pairs_view(cases@) =~= add_spellings(Seq::empty(), Seq::empty()));
    while j < lines.len()
        invariant
            0 <= j <= lines@.len(),
            all_lines == Seq::new(lines@.len(), |k: int| lines@[k]@),
            pairs_view(cases@) == add_spellings(Seq::empty(), lines_spellings(*words, all_lines, j as int)),
        decreases lines@.len() - j,
    {
        let line = &lines[j];
        let code = match split_line_number(line) {
            Some((_, after)) => after,
            None => crate::text::chars_range(line, 0, line.len()),
        };
        let (main, _) = split_single_quote_comment(&code);
        let ghost done = lines_spellings(*words, all_lines, j as int);
        let ghost here = spellings_from(*words, main@, 0, false);
        assert(here == line_spellings(*words, all_lines[j as int])) by {
            assert(all_lines[j as int] == line@);
            assert(line@.subrange(0, line@.len() as int) =~= line@);
        }
        let mut i: usize = 0;
        let mut in_string = false;
        let ghost mut seen: Seq<Seq<char>> = Seq::empty();
        while i < main.len()
            invariant
                0 <= i <= main@.len(),
                here == seen + spellings_from(*words, main@, i as int, in_string),
                pairs_view(cases@) == add_spellings(Seq::empty(), done + seen),
            decreases main@.len() - i,
        {
            proof {
                lemma_spelling_token_advances(*words, main@, i as int, in_string);
                reveal_strlit("REM");
                reveal_strlit("FN");
            }
            let ghost t = spelling_token(*words, main@, i as int, in_string);
            let c = main[i];
            let next: usize;
            let open: bool;
            if c == '"' {
                next = i + 1;
                open = !in_string;
            } else if in_string {
                next = i + 1;
                open = in_string;
            } else if crate::text::char_is_alpha(c) || c == '_' {
                let e = ident_end_at(&main, i + 1);
                proof {
                    lemma_ident_end(main@, i + 1);
                }
                let word = crate::text::chars_range(&main, i, e);
                let up = chars_upper(&word);
                let n = main.len();
                let bounded = (i == 0 || !ident_char_at(main[i - 1])) && (e >= n || !ident_char_at(main[e]));
                let fn_name = up.len() >= 2 && up[0] == 'F' && up[1] == 'N';
                proof {
                    if up@.len() >= 2 {
                        if up@.subrange(0, 2) == "FN"@ {
                            assert(up@[0] == up@.subrange(0, 2)[0]);
                            assert(up@[1] == up@.subrange(0, 2)[1]);
                        }
                        if fn_name {
                            assert(up@.subrange(0, 2) =~= "FN"@);
                        }
                    }
                }
                if is_word(&up, "REM") && bounded {
                    next = n;
                } else {
                    if !fn_name && !is_known_word(words, &up) {
                        let ghost before = pairs_view(cases@);
                        push_entry(&mut cases, &up, &word);
                        proof {
                            let ext = (done + seen).push(word@);
                            assert(ext.drop_last() =~= done + seen);
                            assert(pairs_view(cases@) == add_spellings(Seq::empty(), ext));
                            assert(here == (seen + seq![word@]) + spellings_from(*words, main@, e as int, in_string));
                            assert(done + (seen + seq![word@]) =~= ext);
                            seen = seen + seq![word@];
                        }
                    }
                    next = e;
                }
                open = in_string;
            } else {
                next = i + 1;
                open = in_string;
            }
            proof {
                assert(next as int == t.1 && open == t.2);
                if t.0 is None {
                    assert(here == seen + spellings_from(*words, main@, next as int, open));
                }
            }
            i = next;
            in_string = open;
        }
        proof {
            assert(here =~= seen);
            assert(lines_spellings(*words, all_lines, j + 1) == done + here);
        }
        j += 1;
    }
    assert(lines_spellings(*words, all_lines, j as int) == lines_spellings(*words, all_lines, all_lines.len() as int));
    let ghost spelt = pairs_view(cases@);
    let mut f: usize = 0;
    while f < fallback.len()
        invariant
            0 <= f <= fallback@.len(),
            pairs_view(cases@) == add_fallback(spelt, pairs_view(fallback@).subrange(0, f as int)),
        decreases fallback@.len() - f,
    {
        let key = str_chars(fallback[f].0.as_str());
        let display = str_chars(fallback[f].1.as_str());
        push_entry(&mut cases, &key, &display);
        proof {
            let sub = pairs_view(fallback@).subrange(0, f + 1);
            assert(sub.drop_last() =~= pairs_view(fallback@).subrange(0, f as int));
            assert(sub.last() == (key@, display@));
        }
        f += 1;
    }
    assert(pairs_view(fallback@).subrange(0, f as int) =~= pairs_view(fallback@));
    cases
}

/// Without colours and without identifier spellings, a line as typed is
/// shown exactly as it is.
pub proof fn raw_line_shows_unchanged(words: BasicWords, st: Styles, line: Seq<char>)
    ensures
        highlighted_raw(words, st, line, false, Seq::empty()) == line,
{
}

/// A `REM` that stands alone turns the rest of the line into a comment: the
/// keyword is shown, then everything after it, once and unchanged, in the
/// comment style, and nothing after that is highlighted as code.
pub proof fn rem_comments_out_the_rest_of_the_line(
    words: BasicWords,
    st: Styles,
    help: bool,
    s: Seq<char>,
    i: int,
    after_def: bool,
)
    requires
        0 <= i,
        i + 3 <= s.len(),
        upper_seq(s.subrange(i, i + 3)) == "REM"@,
        i == 0 || !ident_char(s[i - 1]),
        i + 3 == s.len() || !ident_char(s[i + 3]),
    ensures
        highlighted_from(words, st, help, s, i, after_def, false) == styled(st.keyword, "REM"@) + styled(
            st.comment,
            s.subrange(i + 3, s.len() as int),
        ),
{
    reveal_strlit("REM");
    reveal_strlit("HELP");
    let w = s.subrange(i, i + 3);
    assert(upper_seq(w)[0] == crate::text::upper(s[i]));
    assert(upper_seq(w)[1] == crate::text::upper(s[i + 1]));
    assert(upper_seq(w)[2] == crate::text::upper(s[i + 2]));
    assert(ident_start(s[i]));
    assert(ident_char(s[i + 1]));
    assert(ident_char(s[i + 2]));
    assert(ident_end(s, i + 3) == i + 3);
    assert(ident_end(s, i + 2) == i + 3);
    assert(ident_end(s, i + 1) == i + 3);
    assert(s.subrange(i, ident_end(s, i + 1)) == w);
    assert(upper_seq(w) != "HELP"@);
    let n = s.len() as int;
    let t = highlight_token(words, st, help, s, i, after_def, false);
    assert(t.0 == styled(st.keyword, "REM"@) + styled(st.comment, s.subrange(i + 3, n)));
    assert(t.1 == n);
    assert(highlighted_from(words, st, help, s, n, t.2, t.3) == Seq::<char>::empty());
    assert(highlighted_from(words, st, help, s, i, after_def, false) == t.0 + Seq::<char>::empty());
}

} // verus!
