//! How a program line is normalised for listing and editing: known words
//! upper-cased, numbers in canonical form, strings closed, `.bas` added to
//! file commands and statement separators laid out.
use vstd::prelude::*;
use crate::file_commands::{add_bas_extension_to_leading_file_command, completed_from, quote_from};
use crate::immediate::{
    contextual_immediate_command, contextual_immediate_command_marked, help_immediate,
    help_uppercased, uppercase_leading_help, ContextualImmediateCommand,
};
use crate::number_tokens::{
    is_number_start_at, markers_end, number_starts_at, number_token, run_end, scan_number_token,
};
use crate::numbers::{canonical_decimal, canonicalize_decimal_number};
use crate::separators::{
    after_unfinished_colon, comment_split, cursor_after_unfinished_colon_separator,
    format_colon, format_colon_separators, mark_cursor, marked, split_single_quote_comment,
    strip_markers, take_markers, trailing_ws_len, trim, trim_chars, trim_end, CURSOR_MARKER,
};
use crate::text::{
    char_is_alnum, char_is_alpha, chars_eq, chars_upper, extend_with_chars, extend_with_range,
    is_alnum, is_alpha, push_repeated, repeat_char, str_chars, string_from_chars, upper_seq,
};

verus! {

/// The words of the BASIC dialect: its keywords (statements and commands)
/// and its other reserved words (functions, constants, operators), all in
/// upper case.
pub struct BasicWords {
    pub keywords: Vec<String>,
    pub others: Vec<String>,
}

impl BasicWords {
    /// `word` is a keyword.
    pub open spec fn is_keyword(&self, word: Seq<char>) -> bool {
        exists|k: int| 0 <= k < self.keywords@.len() && #[trigger] self.keywords@[k]@ == word
    }

    /// `word` is one of the other reserved words.
    pub open spec fn is_other(&self, word: Seq<char>) -> bool {
        exists|k: int| 0 <= k < self.others@.len() && #[trigger] self.others@[k]@ == word
    }

    /// `word` is a word of the dialect.
    pub open spec fn knows(&self, word: Seq<char>) -> bool {
        self.is_keyword(word) || self.is_other(word)
    }
}

/// Whether `list` holds `word`.
fn listed(list: &Vec<String>, word: &[char]) -> (r: bool)
    ensures
        r == exists|k: int| 0 <= k < list@.len() && #[trigger] list@[k]@ == word@,
{
    let mut k: usize = 0;
    while k < list.len()
        invariant
            0 <= k <= list@.len(),
            forall|j: int| 0 <= j < k ==> #[trigger] list@[j]@ != word@,
        decreases list@.len() - k,
    {
        let entry = str_chars(list[k].as_str());
        if chars_eq(&entry, word) {
            return true;
        }
        k += 1;
    }
    false
}

/// Whether `word` is a keyword of the dialect.
pub fn is_keyword_word(words: &BasicWords, word: &[char]) -> (r: bool)
    ensures
        r == words.is_keyword(word@),
{
    listed(&words.keywords, word)
}

/// Whether `word` is one of the other reserved words of the dialect.
pub fn is_other_word(words: &BasicWords, word: &[char]) -> (r: bool)
    ensures
        r == words.is_other(word@),
{
    listed(&words.others, word)
}

/// Whether `word` is a word of the dialect.
pub fn is_known_word(words: &BasicWords, word: &[char]) -> (r: bool)
    ensures
        r == words.knows(word@),
{
    listed(&words.keywords, word) || listed(&words.others, word)
}

/// Whether `word` is a word of the dialect (keyword or other reserved word).
pub fn is_known_basic_word(words: &BasicWords, word: &str) -> (r: bool)
    ensures
        r == words.knows(word@),
{
    is_known_word(words, &str_chars(word))
}

/// A character that can start an identifier.
pub open spec fn ident_start(c: char) -> bool {
    is_alpha(c) || c == '_'
}

/// A character that can continue an identifier.
pub open spec fn ident_char(c: char) -> bool {
    is_alnum(c) || c == '_' || c == '$'
}

/// The end of the run of identifier characters from `i`.
pub open spec fn ident_end(s: Seq<char>, i: int) -> int
    decreases s.len() - i,
{
    if 0 <= i < s.len() && ident_char(s[i]) {
        ident_end(s, i + 1)
    } else {
        i
    }
}

/// `s[start..end]` stands alone: no identifier character touches it.
pub open spec fn token_boundary(s: Seq<char>, start: int, end: int) -> bool {
    &&& (start == 0 || !ident_char(s[start - 1]))
    &&& (end >= s.len() || !ident_char(s[end]))
}

/// The words after which a string directly behind gets a space.
pub open spec fn spaced_before_string(word: Seq<char>) -> bool {
    ||| word == "LOAD"@
    ||| word == "SAVE"@
    ||| word == "RUN"@
    ||| word == "CHAIN"@
    ||| word == "MERGE"@
    ||| word == "CAT"@
    ||| word == "FILES"@
    ||| word == "CD"@
    ||| word == "PRINT"@
    ||| word == "USING"@
    ||| word == "GPRINT"@
    ||| word == "LABEL"@
}

/// One token of a line from position `i`: its normalised text (or, for a
/// number, its raw text), whether it is a number still to put in canonical
/// form, and where the next token starts. A string runs to its closing
/// quote, or to the end of the line and gets one; a number under the cursor
/// marker (when markers are allowed) keeps its text; `REM` takes the rest of
/// the line; a word of the dialect is upper-cased, with a space before a
/// string that follows a file or print word; a `FN` name is upper-cased;
/// anything else is kept.
pub open spec fn token(words: BasicWords, s: Seq<char>, i: int, marked: bool) -> (Seq<char>, bool, int) {
    let n = s.len() as int;
    if s[i] == '"' {
        match quote_from(s, i + 1) {
            Some(j) => (s.subrange(i, j + 1), false, j + 1),
            None => (s.subrange(i, n) + seq!['"'], false, n),
        }
    } else if number_starts_at(s, i, marked) {
        let (end, has_marker) = number_token(s, i, marked);
        (s.subrange(i, end), !(marked && has_marker), end)
    } else if ident_start(s[i]) {
        let e = ident_end(s, i + 1);
        let word = s.subrange(i, e);
        let up = upper_seq(word);
        if up == "REM"@ && token_boundary(s, i, e) {
            ("REM"@ + s.subrange(e, n), false, n)
        } else if words.knows(up) && token_boundary(s, i, e) {
            let space = if spaced_before_string(up) && e < n && s[e] == '"' {
                seq![' ']
            } else {
                Seq::empty()
            };
            (up + space, false, e)
        } else if up.len() > 2 && up.subrange(0, 2) == "FN"@ {
            (up, false, e)
        } else {
            (word, false, e)
        }
    } else {
        (seq![s[i]], false, i + 1)
    }
}

pub(crate) proof fn lemma_ident_end(s: Seq<char>, i: int)
    requires
        0 <= i,
    ensures
        i <= ident_end(s, i) <= (if i <= s.len() { s.len() as int } else { i }),
    decreases s.len() - i,
{
    if 0 <= i < s.len() && ident_char(s[i]) {
        lemma_ident_end(s, i + 1);
    }
}

pub(crate) proof fn lemma_run_end(s: Seq<char>, i: int, m: bool, dots: bool)
    requires
        0 <= i <= s.len(),
    ensures
        i <= run_end(s, i, m, dots) <= s.len(),
    decreases s.len() - i,
{
    if 0 <= i < s.len() && ((m && s[i] == CURSOR_MARKER) || crate::text::is_digit(s[i]) || (dots && s[i] == '.')) {
        lemma_run_end(s, i + 1, m, dots);
    }
}

proof fn lemma_markers_end(s: Seq<char>, i: int, m: bool)
    requires
        0 <= i <= s.len(),
    ensures
        i <= markers_end(s, i, m) <= s.len(),
    decreases s.len() - i,
{
    if 0 <= i < s.len() && m && s[i] == CURSOR_MARKER {
        lemma_markers_end(s, i + 1, m);
    }
}

pub(crate) proof fn lemma_quote_from(s: Seq<char>, from: int)
    requires
        0 <= from,
    ensures
        quote_from(s, from) matches Some(j) ==> from <= j < s.len() && s[j] == '"',
        quote_from(s, from) is None ==> forall|k: int| from <= k < s.len() ==> s[k] != '"',
    decreases s.len() - from,
{
    if 0 <= from < s.len() && s[from] != '"' {
        lemma_quote_from(s, from + 1);
    }
}

/// Each token ends after it starts, within the line.
pub proof fn lemma_token_advances(words: BasicWords, s: Seq<char>, i: int, marked: bool)
    requires
        0 <= i < s.len(),
    ensures
        i < token(words, s, i, marked).2 <= s.len(),
{
    if s[i] == '"' {
        lemma_quote_from(s, i + 1);
    } else if number_starts_at(s, i, marked) {
        lemma_run_end(s, i, marked, true);
        let m = run_end(s, i, marked, true);
        if 0 <= i < s.len() && ((marked && s[i] == CURSOR_MARKER) || crate::text::is_digit(s[i]) || s[i] == '.') {
            lemma_run_end(s, i + 1, marked, true);
        }
        if 0 <= m < s.len() && (s[m] == 'e' || s[m] == 'E') {
            lemma_markers_end(s, m + 1, marked);
            let a = markers_end(s, m + 1, marked);
            let b = if 0 <= a < s.len() && (s[a] == '+' || s[a] == '-') {
                a + 1
            } else {
                a
            };
            lemma_run_end(s, b, marked, false);
        }
    } else if ident_start(s[i]) {
        lemma_ident_end(s, i + 1);
    }
}

/// The canonical text of an exponent number: the form that `forms` gives
/// for it first, else the raw text.
pub open spec fn exponent_form(raw: Seq<char>, forms: Seq<(String, String)>, k: int) -> Seq<char>
    decreases forms.len() - k,
{
    if k < 0 || k >= forms.len() {
        raw
    } else if forms[k].0@ == raw {
        forms[k].1@
    } else {
        exponent_form(raw, forms, k + 1)
    }
}

/// `raw` holds an exponent.
pub open spec fn has_exponent(raw: Seq<char>) -> bool {
    raw.contains('e') || raw.contains('E')
}

/// The canonical text of a number literal: a decimal number is rounded and
/// trimmed as `canonical_decimal` says; an exponent number takes its form
/// from `forms`.
pub open spec fn number_form(raw: Seq<char>, forms: Seq<(String, String)>) -> Seq<char> {
    if has_exponent(raw) {
        exponent_form(raw, forms, 0)
    } else {
        canonical_decimal(raw)
    }
}

/// The normalised text of `s` from position `i`.
pub open spec fn normalized_from(
    words: BasicWords,
    s: Seq<char>,
    i: int,
    marked: bool,
    forms: Seq<(String, String)>,
) -> Seq<char>
    decreases s.len() - i,
{
    if i < 0 || i >= s.len() {
        Seq::empty()
    } else {
        proof {
            lemma_token_advances(words, s, i, marked);
        }
        let (text, is_number, next) = token(words, s, i, marked);
        (if is_number {
            number_form(text, forms)
        } else {
            text
        }) + normalized_from(words, s, next, marked, forms)
    }
}

/// The exponent numbers of `s` from position `i` that normalisation puts
/// in canonical form, in order.
pub open spec fn exponent_numbers_from(words: BasicWords, s: Seq<char>, i: int, marked: bool) -> Seq<Seq<char>>
    decreases s.len() - i,
{
    if i < 0 || i >= s.len() {
        Seq::empty()
    } else {
        proof {
            lemma_token_advances(words, s, i, marked);
        }
        let (text, is_number, next) = token(words, s, i, marked);
        (if is_number && has_exponent(text) {
            seq![text]
        } else {
            Seq::empty()
        }) + exponent_numbers_from(words, s, next, marked)
    }
}

fn ident_start_char(c: char) -> (r: bool)
    ensures
        r == ident_start(c),
{
    char_is_alpha(c) || c == '_'
}

pub(crate) fn ident_char_at(c: char) -> (r: bool)
    ensures
        r == ident_char(c),
{
    char_is_alnum(c) || c == '_' || c == '$'
}

pub(crate) fn ident_end_at(s: &[char], i: usize) -> (r: usize)
    requires
        i <= s@.len(),
    ensures
        r as int == ident_end(s@, i as int),
{
    let mut e = i;
    while e < s.len() && ident_char_at(s[e])
        invariant
            i <= e <= s@.len(),
            ident_end(s@, i as int) == ident_end(s@, e as int),
        decreases s@.len() - e,
    {
        e += 1;
    }
    e
}

fn boundary_at(s: &[char], start: usize, end: usize) -> (r: bool)
    requires
        start <= end <= s@.len(),
    ensures
        r == token_boundary(s@, start as int, end as int),
{
    let before = start == 0 || !ident_char_at(s[start - 1]);
    let after = end >= s.len() || !ident_char_at(s[end]);
    before && after
}

fn spaced_word(word: &[char]) -> (r: bool)
    ensures
        r == spaced_before_string(word@),
{
    let names = ["LOAD", "SAVE", "RUN", "CHAIN", "MERGE", "CAT", "FILES", "CD", "PRINT", "USING", "GPRINT", "LABEL"];
    let mut k: usize = 0;
    let mut found = false;
    while k < 12
        invariant
            0 <= k <= 12,
            names@.len() == 12,
            forall|j: int| 0 <= j < 12 ==> #[trigger] names@[j] == names[j],
            found == exists|j: int| 0 <= j < k && word@ == #[trigger] names@[j]@,
        decreases 12 - k,
    {
        if chars_eq(&str_chars(names[k]), word) {
            found = true;
        }
        k += 1;
    }
    proof {
        if spaced_before_string(word@) {
            assert(exists|j: int| 0 <= j < 12 && word@ == #[trigger] names@[j]@) by {
                if word@ == "LOAD"@ { assert(word@ == names@[0]@); }
                else if word@ == "SAVE"@ { assert(word@ == names@[1]@); }
                else if word@ == "RUN"@ { assert(word@ == names@[2]@); }
                else if word@ == "CHAIN"@ { assert(word@ == names@[3]@); }
                else if word@ == "MERGE"@ { assert(word@ == names@[4]@); }
                else if word@ == "CAT"@ { assert(word@ == names@[5]@); }
                else if word@ == "FILES"@ { assert(word@ == names@[6]@); }
                else if word@ == "CD"@ { assert(word@ == names@[7]@); }
                else if word@ == "PRINT"@ { assert(word@ == names@[8]@); }
                else if word@ == "USING"@ { assert(word@ == names@[9]@); }
                else if word@ == "GPRINT"@ { assert(word@ == names@[10]@); }
                else { assert(word@ == names@[11]@); }
            }
        }
    }
    found
}

/// The token of `s` that starts at `i`: its text, whether it is a number
/// still to put in canonical form, and where the next one starts.
pub fn next_token(words: &BasicWords, s: &[char], i: usize, marked: bool) -> (r: (Vec<char>, bool, usize))
    requires
        i < s@.len(),
    ensures
        r.0@ == token(*words, s@, i as int, marked).0,
        r.1 == token(*words, s@, i as int, marked).1,
        r.2 as int == token(*words, s@, i as int, marked).2,
{
    let n = s.len();
    let c = s[i];
    if c == '"' {
        let mut j = i + 1;
        while j < n && s[j] != '"'
            invariant
                i + 1 <= j <= n,
                n == s@.len(),
                quote_from(s@, (i + 1) as int) == quote_from(s@, j as int),
            decreases n - j,
        {
            j += 1;
        }
        if j < n {
            (crate::text::chars_range(s, i, j + 1), false, j + 1)
        } else {
            let mut text = crate::text::chars_range(s, i, n);
            text.push('"');
            (text, false, n)
        }
    } else if is_number_start_at(s, i, marked) {
        let (end, has_marker) = scan_number_token(s, i, marked);
        proof {
            lemma_token_advances(*words, s@, i as int, marked);
        }
        (crate::text::chars_range(s, i, end), !(marked && has_marker), end)
    } else if ident_start_char(c) {
        let e = ident_end_at(s, i + 1);
        proof {
            lemma_ident_end(s@, i + 1);
        }
        let word = crate::text::chars_range(s, i, e);
        let up = chars_upper(&word);
        let bounded = boundary_at(s, i, e);
        if bounded && chars_eq(&up, &str_chars("REM")) {
            let mut text = str_chars("REM");
            extend_with_range(&mut text, s, e, n);
            (text, false, n)
        } else if bounded && is_known_word(words, &up) {
            let mut text = crate::text::chars_range(&up, 0, up.len());
            if spaced_word(&up) && e < n && s[e] == '"' {
                text.push(' ');
            }
            proof {
                assert(up@.subrange(0, up@.len() as int) =~= up@);
            }
            (text, false, e)
        } else if up.len() > 2 && up[0] == 'F' && up[1] == 'N' {
            proof {
                reveal_strlit("FN");
                assert(up@.subrange(0, 2) =~= "FN"@);
            }
            (up, false, e)
        } else {
            proof {
                reveal_strlit("FN");
                if up@.len() > 2 && up@.subrange(0, 2) == "FN"@ {
                    assert(up@[0] == up@.subrange(0, 2)[0]);
                    assert(up@[1] == up@.subrange(0, 2)[1]);
                }
            }
            (word, false, e)
        }
    } else {
        let mut text: Vec<char> = Vec::new();
        text.push(c);
        (text, false, i + 1)
    }
}

/// Whether the number literal `raw` holds an exponent.
fn has_exponent_char(raw: &[char]) -> (r: bool)
    ensures
        r == has_exponent(raw@),
{
    let mut k: usize = 0;
    let mut exponent = false;
    while k < raw.len()
        invariant
            0 <= k <= raw@.len(),
            exponent == exists|j: int| 0 <= j < k && (raw@[j] == 'e' || raw@[j] == 'E'),
        decreases raw@.len() - k,
    {
        if raw[k] == 'e' || raw[k] == 'E' {
            exponent = true;
        }
        k += 1;
    }
    proof {
        if has_exponent(raw@) {
            if raw@.contains('e') {
                let j = choose|j: int| 0 <= j < raw@.len() && raw@[j] == 'e';
                assert(0 <= j < k && raw@[j] == 'e');
            } else {
                let j = choose|j: int| 0 <= j < raw@.len() && raw@[j] == 'E';
                assert(0 <= j < k && raw@[j] == 'E');
            }
        }
        if exponent {
            let j = choose|j: int| 0 <= j < k && (raw@[j] == 'e' || raw@[j] == 'E');
            if raw@[j] == 'e' {
                assert(raw@.contains('e'));
            } else {
                assert(raw@.contains('E'));
            }
        }
    }
    exponent
}

/// The canonical text of the number literal `raw`.
pub fn canonicalize_number(raw: &[char], forms: &[(String, String)]) -> (r: Vec<char>)
    ensures
        r@ == number_form(raw@, forms@),
{
    let exponent = has_exponent_char(raw);
    if exponent {
        let mut f: usize = 0;
        while f < forms.len()
            invariant
                0 <= f <= forms@.len(),
                has_exponent(raw@),
                exponent_form(raw@, forms@, 0) == exponent_form(raw@, forms@, f as int),
            decreases forms@.len() - f,
        {
            if chars_eq(&str_chars(forms[f].0.as_str()), raw) {
                let form = str_chars(forms[f].1.as_str());
                assert(form@ == forms@[f as int].1@);
                assert(forms@[f as int].0@ == raw@);
                assert(exponent_form(raw@, forms@, f as int) == forms@[f as int].1@);
                assert(has_exponent(raw@));
                return form;
            }
            f += 1;
        }
        crate::text::chars_range(raw, 0, raw.len())
    } else {
        str_chars(canonicalize_decimal_number(&string_from_chars(raw)).as_str())
    }
}

/// The main part of a line (before any `'` comment) in normalised form:
/// words of the dialect upper-cased, numbers canonical (but for one under
/// the cursor marker when `marked`), strings closed.
pub fn normalize_main_code_inner(
    words: &BasicWords,
    code: &[char],
    marked: bool,
    forms: &[(String, String)],
) -> (r: Vec<char>)
    ensures
        r@ == normalized_from(*words, code@, 0, marked, forms@),
{
    let mut out: Vec<char> = Vec::new();
    let mut i: usize = 0;
    while i < code.len()
        invariant
            0 <= i <= code@.len(),
            normalized_from(*words, code@, 0, marked, forms@) == out@ + normalized_from(
                *words,
                code@,
                i as int,
                marked,
                forms@,
            ),
        decreases code@.len() - i,
    {
        proof {
            lemma_token_advances(*words, code@, i as int, marked);
        }
        let (text, is_number, next) = next_token(words, code, i, marked);
        let ghost before = out@;
        if is_number {
            let form = canonicalize_number(&text, forms);
            extend_with_chars(&mut out, &form);
        } else {
            extend_with_chars(&mut out, &text);
        }
        proof {
            let rest = normalized_from(*words, code@, next as int, marked, forms@);
            assert(before + ((out@.subrange(before.len() as int, out@.len() as int)) + rest) =~= out@ + rest);
        }
        i = next;
    }
    out
}

/// The body of a line with its `'` comment put back: at least one space
/// before the comment unless the body is blank.
pub open spec fn with_comment(body: Seq<char>, comment: Option<(nat, Seq<char>)>) -> Seq<char> {
    match comment {
        None => body,
        Some((spaces, text)) => {
            let n = if trim(body).len() == 0 || spaces >= 1 {
                spaces
            } else {
                1
            };
            body + repeat_char(' ', n) + seq!['\''] + text
        },
    }
}

/// A line in normalised form: its main part normalised, `.bas` added to a
/// leading file command, separators laid out, the comment put back, and a
/// leading `HELP` upper-cased where the line is a help request. With
/// `marked`, the line holds the cursor marker and a number under it keeps
/// its text.
pub open spec fn normalized_line(words: BasicWords, code: Seq<char>, marked: bool, forms: Seq<(String, String)>) -> Seq<char> {
    let (main, comment) = comment_split(code);
    let body = format_colon(completed_from(normalized_from(words, trim_end(main), 0, marked, forms), 0));
    let line = with_comment(body, comment);
    let help = if marked {
        help_immediate(strip_markers(code))
    } else {
        help_immediate(code)
    };
    if help {
        help_uppercased(line)
    } else {
        line
    }
}

/// A line in normalised form for listing.
pub open spec fn normalized(words: BasicWords, code: Seq<char>, forms: Seq<(String, String)>) -> Seq<char> {
    normalized_line(words, code, false, forms)
}

/// A line in normalised form while the cursor stands at `cursor`: the
/// number under the cursor keeps its text.
pub open spec fn normalized_editing(words: BasicWords, code: Seq<char>, cursor: int, forms: Seq<(String, String)>) -> Seq<char> {
    strip_markers(normalized_line(words, marked(code, cursor), true, forms))
}

/// The position of the first cursor marker in `s`.
pub open spec fn first_marker(s: Seq<char>, from: int) -> Option<int>
    decreases s.len() - from,
{
    if from < 0 || from >= s.len() {
        None
    } else if s[from] == CURSOR_MARKER {
        Some(from)
    } else {
        first_marker(s, from + 1)
    }
}

/// Where the cursor at `cursor` of `text` stands in the normalised line:
/// after a colon just typed at the end of the line, at the end of the
/// normalised line; else where the cursor marker ends up, or at `cursor`
/// when it is lost.
pub open spec fn normalized_cursor(words: BasicWords, text: Seq<char>, cursor: int, forms: Seq<(String, String)>) -> int {
    if after_unfinished_colon(text, cursor) {
        normalized(words, text, forms).len() as int
    } else {
        match first_marker(normalized_line(words, marked(text, cursor), true, forms), 0) {
            Some(p) => p,
            None => cursor,
        }
    }
}

/// The exponent numbers whose canonical forms the normalisation of `code`
/// looks up: those of its main part, with the cursor marker at `cursor`
/// when there is one.
pub open spec fn exponent_numbers_of(words: BasicWords, code: Seq<char>, cursor: Option<usize>) -> Seq<Seq<char>> {
    let line = match cursor {
        Some(c) => marked(code, c as int),
        None => code,
    };
    exponent_numbers_from(words, trim_end(comment_split(line).0), 0, cursor is Some)
}

fn normalize_line(words: &BasicWords, code: &[char], marked: bool, forms: &[(String, String)]) -> (r: Vec<char>)
    ensures
        r@ == normalized_line(*words, code@, marked, forms@),
{
    let text = string_from_chars(code);
    let help = if marked {
        contextual_immediate_command_marked(text.as_str())
    } else {
        contextual_immediate_command(text.as_str())
    };
    let (main, comment) = split_single_quote_comment(code);
    proof {
        crate::separators::lemma_back_ws_bound(main@);
    }
    let main_end = main.len() - trailing_ws_len(&main);
    let main_trimmed = crate::text::chars_range(&main, 0, main_end);
    let inner = normalize_main_code_inner(words, &main_trimmed, marked, forms);
    let completed = str_chars(add_bas_extension_to_leading_file_command(string_from_chars(&inner).as_str()).as_str());
    let mut body = format_colon_separators(&completed);
    let ghost laid_out = body@;
    match comment {
        None => {},
        Some((spaces, text)) => {
            let n = if trim_chars(&body).len() == 0 || spaces >= 1 {
                spaces
            } else {
                1
            };
            push_repeated(&mut body, ' ', n);
            body.push('\'');
            extend_with_chars(&mut body, &text);
            proof {
                assert(body@ =~= with_comment(laid_out, Some((spaces as nat, text@))));
            }
        },
    }
    match help {
        Some(ContextualImmediateCommand::Help) => {
            let mut line = string_from_chars(&body);
            uppercase_leading_help(&mut line);
            str_chars(line.as_str())
        },
        None => body,
    }
}

/// The line in normalised form for listing.
pub fn normalize_code(words: &BasicWords, code: &str, forms: &[(String, String)]) -> (r: String)
    ensures
        r@ == normalized(*words, code@, forms@),
{
    string_from_chars(&normalize_line(words, &str_chars(code), false, forms))
}

/// The line in normalised form while the cursor stands at `cursor`.
pub fn normalize_code_for_editing(words: &BasicWords, code: &str, cursor: usize, forms: &[(String, String)]) -> (r: String)
    ensures
        r@ == normalized_editing(*words, code@, cursor as int, forms@),
{
    let marked_line = mark_cursor(&str_chars(code), cursor);
    let normalized_marked = normalize_line(words, &marked_line, true, forms);
    let (plain, _) = take_markers(&normalized_marked);
    string_from_chars(&plain)
}

/// Where the cursor at `cursor` of `text` stands once the line is in
/// normalised form.
pub fn normalized_cursor_position(words: &BasicWords, text: &str, cursor: usize, forms: &[(String, String)]) -> (r: usize)
    ensures
        r as int == normalized_cursor(*words, text@, cursor as int, forms@),
{
    let chars = str_chars(text);
    if cursor_after_unfinished_colon_separator(&chars, cursor) {
        return normalize_line(words, &chars, false, forms).len();
    }
    let marked_line = mark_cursor(&chars, cursor);
    let normalized_marked = normalize_line(words, &marked_line, true, forms);
    assert(normalized_marked@ == normalized_line(*words, marked(text@, cursor as int), true, forms@));
    assert(!after_unfinished_colon(text@, cursor as int));
    let mut p: usize = 0;
    while p < normalized_marked.len()
        invariant
            0 <= p <= normalized_marked@.len(),
            first_marker(normalized_marked@, 0) == first_marker(normalized_marked@, p as int),
            normalized_marked@ == normalized_line(*words, marked(text@, cursor as int), true, forms@),
            !after_unfinished_colon(text@, cursor as int),
        decreases normalized_marked@.len() - p,
    {
        if normalized_marked[p] == CURSOR_MARKER {
            assert(first_marker(normalized_marked@, p as int) == Some(p as int));
            return p;
        }
        p += 1;
    }
    cursor
}

/// The exponent numbers of `code` whose canonical forms normalisation looks
/// up, in order; with `cursor`, as the line is normalised while editing.
pub fn exponent_numbers(words: &BasicWords, code: &str, cursor: Option<usize>) -> (r: Vec<String>)
    ensures
        r@.len() == exponent_numbers_of(*words, code@, cursor).len(),
        forall|k: int| 0 <= k < r@.len() ==> #[trigger] r@[k]@ == exponent_numbers_of(*words, code@, cursor)[k],
{
    let chars = str_chars(code);
    let (line, marked) = match cursor {
        Some(c) => (mark_cursor(&chars, c), true),
        None => (chars, false),
    };
    let (main, _) = split_single_quote_comment(&line);
    proof {
        crate::separators::lemma_back_ws_bound(main@);
    }
    let main_end = main.len() - trailing_ws_len(&main);
    let s = crate::text::chars_range(&main, 0, main_end);
    let ghost all = exponent_numbers_from(*words, s@, 0, marked);
    let ghost mut got: Seq<Seq<char>> = Seq::empty();
    let mut out: Vec<String> = Vec::new();
    let mut i: usize = 0;
    while i < s.len()
        invariant
            0 <= i <= s@.len(),
            all == got + exponent_numbers_from(*words, s@, i as int, marked),
            out@.len() == got.len(),
            forall|k: int| 0 <= k < out@.len() ==> #[trigger] out@[k]@ == got[k],
        decreases s@.len() - i,
    {
        proof {
            lemma_token_advances(*words, s@, i as int, marked);
        }
        let (text, is_number, next) = next_token(words, &s, i, marked);
        let ghost rest = exponent_numbers_from(*words, s@, next as int, marked);
        if is_number && has_exponent_char(&text) {
            out.push(string_from_chars(&text));
            proof {
                assert(all == (got + seq![text@]) + rest);
                got = got + seq![text@];
            }
        } else {
            proof {
                assert(all == got + rest);
            }
        }
        i = next;
    }
    assert(exponent_numbers_from(*words, s@, i as int, marked) =~= Seq::<Seq<char>>::empty());
    out
}

/// A `REM` that stands alone ends the code of a line: normalisation writes
/// `REM` in capitals and keeps everything after it exactly as typed.
pub proof fn rem_keeps_the_rest_of_the_line(
    words: BasicWords,
    s: Seq<char>,
    i: int,
    marked: bool,
    forms: Seq<(String, String)>,
)
    requires
        0 <= i,
        i + 3 <= s.len(),
        upper_seq(s.subrange(i, i + 3)) == "REM"@,
        i == 0 || !ident_char(s[i - 1]),
        i + 3 == s.len() || !ident_char(s[i + 3]),
    ensures
        normalized_from(words, s, i, marked, forms) == "REM"@ + s.subrange(i + 3, s.len() as int),
{
    reveal_strlit("REM");
    let w = s.subrange(i, i + 3);
    assert(upper_seq(w)[0] == crate::text::upper(s[i]));
    assert(upper_seq(w)[1] == crate::text::upper(s[i + 1]));
    assert(upper_seq(w)[2] == crate::text::upper(s[i + 2]));
    assert(ident_start(s[i]));
    assert(s[i] != CURSOR_MARKER && !crate::text::is_digit(s[i]) && s[i] != '.' && s[i] != '"');
    assert(!number_starts_at(s, i, marked));
    assert(ident_char(s[i + 1]));
    assert(ident_char(s[i + 2]));
    assert(ident_end(s, i + 3) == i + 3);
    assert(ident_end(s, i + 2) == i + 3);
    assert(ident_end(s, i + 1) == i + 3);
    assert(s.subrange(i, ident_end(s, i + 1)) == w);
    let n = s.len() as int;
    let t = token(words, s, i, marked);
    assert(t == ("REM"@ + s.subrange(i + 3, n), false, n));
    assert(normalized_from(words, s, n, marked, forms) == Seq::<char>::empty());
    assert(normalized_from(words, s, i, marked, forms) == t.0 + Seq::<char>::empty());
}

} // verus!
