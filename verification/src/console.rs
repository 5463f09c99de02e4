//! The developer console: syntax highlighting of output lines, command-line
//! parsing, the console's buffered state and the command registry.
use vstd::prelude::*;
use crate::saves::{inspection_from_files, lists_folders, save_list_from_folders};
use crate::text::{
    ascii_lowercase_text, is_ascii_text, lemma_ascii_lowercase_same,
    ascii_lower, chars_of, contains_text, has_infix, has_prefix, is_digit_char, is_whitespace,
    is_whitespace_char, owned, starts_with, string_of, trim_chars, trim_spec, views, decimal,
    signed_decimal, join_spec, eq_ignore_ascii_case_spec, eq_ignore_ascii_case, join_texts,
    push_text, signed_text, unsigned_text, lowercase_text, to_lowercase,
};

verus! {

broadcast use vstd::string::group_string_axioms;

/// Token kind for syntax highlighting
#[derive(Clone, Copy, Debug, PartialEq, Eq, Structural)]
pub enum TokenKind {
    Quote,
    Word,
    Number,
    Command,
    Space,
}

/// A single token with its text and kind
#[derive(Clone, Debug)]
pub struct Token {
    pub text: String,
    pub kind: TokenKind,
}

/// The text and kind of a token.
pub open spec fn token_view(t: Token) -> (Seq<char>, TokenKind) {
    (t.text@, t.kind)
}

/// The texts and kinds of a sequence of tokens.
pub open spec fn tokens_view(ts: Seq<Token>) -> Seq<(Seq<char>, TokenKind)> {
    ts.map_values(|t: Token| token_view(t))
}

// ---------------------------------------------------------------------------
// Number recognition
// ---------------------------------------------------------------------------

/// The text with one leading `+` or `-` removed, if it has one.
pub open spec fn strip_sign(s: Seq<char>) -> Seq<char> {
    if s.len() > 0 && (s[0] == '+' || s[0] == '-') {
        s.drop_first()
    } else {
        s
    }
}

/// Only digits and at most one `.`.
pub open spec fn digits_and_one_dot(m: Seq<char>) -> bool {
    &&& forall|i: int| 0 <= i < m.len() ==> is_digit_char(#[trigger] m[i]) || m[i] == '.'
    &&& forall|i: int, j: int| 0 <= i < j < m.len() && #[trigger] m[i] == '.' ==> #[trigger] m[j] != '.'
}

/// At least one digit.
pub open spec fn has_digit(m: Seq<char>) -> bool {
    exists|i: int| 0 <= i < m.len() && is_digit_char(#[trigger] m[i])
}

/// `Digit+ | Digit+ '.' Digit* | Digit* '.' Digit+`.
pub open spec fn mantissa_ok(m: Seq<char>) -> bool {
    digits_and_one_dot(m) && has_digit(m)
}

/// `Sign? Digit+`, the part after the exponent marker.
pub open spec fn exponent_ok(x: Seq<char>) -> bool {
    let d = strip_sign(x);
    d.len() > 0 && forall|i: int| 0 <= i < d.len() ==> is_digit_char(#[trigger] d[i])
}

/// Whether a character is the exponent marker `e` or `E`.
pub open spec fn is_exp_marker(c: char) -> bool {
    c == 'e' || c == 'E'
}

/// The decimal grammar of `f64::from_str` without its sign:
/// `Number ::= ( Digit+ | Digit+ '.' Digit* | Digit* '.' Digit+ ) Exp?`,
/// `Exp ::= [eE] Sign? Digit+`, plus the case-insensitive words
/// `inf`, `infinity` and `nan`.
pub open spec fn unsigned_float_ok(b: Seq<char>) -> bool {
    ||| mantissa_ok(b)
    ||| exists|k: int|
        0 <= k < b.len() && is_exp_marker(#[trigger] b[k]) && mantissa_ok(b.take(k))
            && exponent_ok(b.skip(k + 1))
    ||| b.map_values(|c: char| ascii_lower(c)) == seq!['i', 'n', 'f']
    ||| b.map_values(|c: char| ascii_lower(c)) == seq!['i', 'n', 'f', 'i', 'n', 'i', 't', 'y']
    ||| b.map_values(|c: char| ascii_lower(c)) == seq!['n', 'a', 'n']
}

/// Whether `s.parse::<f64>()` succeeds: an optional sign followed by the
/// grammar of [`unsigned_float_ok`].
pub open spec fn float_literal_ok(s: Seq<char>) -> bool {
    unsigned_float_ok(strip_sign(s))
}

/// What `looks_like_number` accepts: after an optional sign, digits with at
/// most one `.` and at least one digit; or, where an exponent marker is the
/// first character that is neither a digit nor the first `.`, a text that
/// parses as a float.
pub open spec fn looks_like_number_spec(s: Seq<char>) -> bool {
    let b = strip_sign(s);
    s.len() > 0 && (mantissa_ok(b) || exists|k: int|
        0 <= k < b.len() && is_exp_marker(#[trigger] b[k]) && digits_and_one_dot(b.take(k))
            && float_literal_ok(s))
}

/// In a text whose first `n` characters are digits with at most one `.`,
/// each of those characters is a digit or a first `.`.
proof fn lemma_take_shape(b: Seq<char>, k: int, n: int)
    requires
        0 <= k < n <= b.len(),
        digits_and_one_dot(b.take(n)),
    ensures
        is_digit_char(b[k]) || b[k] == '.',
        b[k] == '.' ==> forall|j: int| 0 <= j < k ==> #[trigger] b[j] != '.',
{
    assert(b.take(n)[k] == b[k]);
    assert forall|j: int| 0 <= j < k && b[k] == '.' implies #[trigger] b[j] != '.' by {
        assert(b.take(n)[j] == b[j]);
    }
}

/// Extending a digits-with-one-dot prefix by a digit or a first dot.
proof fn lemma_take_extend(b: Seq<char>, k: int)
    requires
        0 <= k < b.len(),
        digits_and_one_dot(b.take(k)),
        is_digit_char(b[k]) || (b[k] == '.' && forall|j: int| 0 <= j < k ==> #[trigger] b[j] != '.'),
    ensures
        digits_and_one_dot(b.take(k + 1)),
        has_digit(b.take(k + 1)) == (has_digit(b.take(k)) || is_digit_char(b[k])),
{
    let t = b.take(k + 1);
    assert(t =~= b.take(k).push(b[k]));
    assert forall|x: int, y: int| 0 <= x < y < t.len() && #[trigger] t[x] == '.' implies #[trigger] t[y]
        != '.' by {
        if y < k {
            assert(b.take(k)[x] == t[x]);
            assert(b.take(k)[y] == t[y]);
        } else {
            assert(t[x] == b[x]);
        }
    }
    assert forall|x: int| 0 <= x < t.len() implies is_digit_char(#[trigger] t[x]) || t[x] == '.' by {
        if x < k {
            assert(b.take(k)[x] == t[x]);
        }
    }
    if has_digit(b.take(k)) {
        let j = choose|j: int| 0 <= j < b.take(k).len() && is_digit_char(#[trigger] b.take(k)[j]);
        assert(t[j] == b.take(k)[j]);
    }
    assert(t[k] == b[k]);
    if has_digit(t) && !is_digit_char(b[k]) {
        let j = choose|j: int| 0 <= j < t.len() && is_digit_char(#[trigger] t[j]);
        assert(b.take(k)[j] == t[j]);
    }
}

/// A character that is neither a digit nor a first `.` ends every
/// digits-with-one-dot prefix: no longer prefix has that shape, and the only
/// exponent marker that can follow such a prefix is this character.
proof fn lemma_offender(b: Seq<char>, k: int)
    requires
        0 <= k < b.len(),
        digits_and_one_dot(b.take(k)),
        !(is_digit_char(b[k]) || (b[k] == '.' && forall|j: int| 0 <= j < k ==> #[trigger] b[j] != '.')),
    ensures
        !mantissa_ok(b),
        forall|k2: int|
            0 <= k2 < b.len() && is_exp_marker(#[trigger] b[k2]) && digits_and_one_dot(b.take(k2))
                ==> k2 == k,
{
    assert(b.take(b.len() as int) =~= b);
    if digits_and_one_dot(b) {
        lemma_take_shape(b, k, b.len() as int);
    }
    assert forall|k2: int|
        0 <= k2 < b.len() && is_exp_marker(#[trigger] b[k2]) && digits_and_one_dot(b.take(k2)) implies k2
        == k by {
        if k2 < k {
            lemma_take_shape(b, k2, k);
        } else if k2 > k {
            lemma_take_shape(b, k, k2);
        }
    }
}

/// Quick check if a string looks like a number (avoids full parsing overhead)
pub fn looks_like_number(s: &str) -> (r: bool)
    ensures
        r == looks_like_number_spec(s@),
{
    let v = chars_of(s);
    number_like(&v)
}

/// [`looks_like_number`] on a vector of characters.
fn number_like(v: &Vec<char>) -> (r: bool)
    ensures
        r == looks_like_number_spec(v@),
{
    let ghost s = v@;
    if v.len() == 0 {
        return false;
    }
    let start: usize = if v[0] == '+' || v[0] == '-' {
        1
    } else {
        0
    };
    let ghost b = strip_sign(s);
    assert(b =~= v@.skip(start as int));
    assert(b.take(0) =~= Seq::<char>::empty());
    let mut has_d = false;
    let mut has_dot = false;
    let mut i: usize = start;
    while i < v.len()
        invariant
            v@ == s,
            v.len() > 0,
            start <= 1,
            start == 1 <==> (v@[0] == '+' || v@[0] == '-'),
            start <= i <= v.len(),
            b == strip_sign(s),
            b == v@.skip(start as int),
            digits_and_one_dot(b.take(i - start)),
            has_d == has_digit(b.take(i - start)),
            has_dot == (exists|j: int| 0 <= j < i - start && #[trigger] b[j] == '.'),
        decreases v.len() - i,
    {
        let c = v[i];
        let ghost k = i - start;
        assert(b[k] == c);
        if '0' <= c && c <= '9' {
            has_d = true;
            proof {
                lemma_take_extend(b, k);
            }
        } else if c == '.' && !has_dot {
            has_dot = true;
            proof {
                lemma_take_extend(b, k);
            }
        } else if c == 'e' || c == 'E' {
            proof {
                lemma_offender(b, k);
            }
            let ok = float_tail_ok(v, start, i);
            return ok;
        } else {
            proof {
                lemma_offender(b, k);
            }
            return false;
        }
        i += 1;
    }
    proof {
        assert(b.take(b.len() as int) =~= b);
        assert forall|k2: int| 0 <= k2 < b.len() implies !is_exp_marker(#[trigger] b[k2]) by {
            lemma_take_shape(b, k2, b.len() as int);
        }
    }
    has_d
}

/// Whether the characters from `from` on form an exponent: an optional sign
/// and then at least one digit.
fn exponent_at(v: &Vec<char>, from: usize) -> (r: bool)
    requires
        from <= v.len(),
    ensures
        r == exponent_ok(v@.skip(from as int)),
{
    let mut j: usize = from;
    if j < v.len() && (v[j] == '+' || v[j] == '-') {
        j += 1;
    }
    let digits_start = j;
    let mut all_digits = true;
    while j < v.len()
        invariant
            from <= digits_start <= j <= v.len(),
            all_digits == (forall|m: int| digits_start <= m < j ==> is_digit_char(#[trigger] v@[m])),
        decreases v.len() - j,
    {
        if !('0' <= v[j] && v[j] <= '9') {
            all_digits = false;
        }
        j += 1;
    }
    let r = all_digits && digits_start < v.len();
    proof {
        let x = v@.skip(from as int);
        let d = strip_sign(x);
        assert(d =~= v@.skip(digits_start as int));
        if r {
            assert forall|m: int| 0 <= m < d.len() implies is_digit_char(#[trigger] d[m]) by {
                assert(d[m] == v@[digits_start + m]);
            }
        } else if d.len() > 0 {
            let m = choose|m: int| digits_start <= m < v.len() && !is_digit_char(#[trigger] v@[m]);
            assert(d[m - digits_start] == v@[m]);
        }
    }
    r
}

/// Whether some of the characters in `from..to` is a digit.
fn any_digit_between(v: &Vec<char>, from: usize, to: usize) -> (r: bool)
    requires
        from <= to <= v.len(),
    ensures
        r == has_digit(v@.subrange(from as int, to as int)),
{
    let ghost m = v@.subrange(from as int, to as int);
    let mut found = false;
    let mut i: usize = from;
    while i < to
        invariant
            from <= i <= to <= v.len(),
            m == v@.subrange(from as int, to as int),
            found == (exists|j: int| 0 <= j < i - from && is_digit_char(#[trigger] m[j])),
        decreases to - i,
    {
        if '0' <= v[i] && v[i] <= '9' {
            found = true;
            assert(m[i - from] == v@[i as int]);
        }
        i += 1;
    }
    found
}

/// None of `inf`, `infinity`, `nan` begins with a digit, a dot or an
/// exponent marker.
proof fn lemma_not_special(b: Seq<char>)
    requires
        b.len() > 0,
        is_digit_char(b[0]) || b[0] == '.' || is_exp_marker(b[0]),
    ensures
        b.map_values(|c: char| ascii_lower(c)) != seq!['i', 'n', 'f'],
        b.map_values(|c: char| ascii_lower(c)) != seq!['i', 'n', 'f', 'i', 'n', 'i', 't', 'y'],
        b.map_values(|c: char| ascii_lower(c)) != seq!['n', 'a', 'n'],
{
    let lower = b.map_values(|c: char| ascii_lower(c));
    assert(lower[0] == ascii_lower(b[0]));
    assert(seq!['i', 'n', 'f'][0] == 'i');
    assert(seq!['i', 'n', 'f', 'i', 'n', 'i', 't', 'y'][0] == 'i');
    assert(seq!['n', 'a', 'n'][0] == 'n');
}

/// Decides `float_literal_ok` for a text whose unsigned part has an exponent
/// marker at `e_at`, preceded only by digits and at most one `.`.
#[verifier::rlimit(40)]
fn float_tail_ok(v: &Vec<char>, start: usize, e_at: usize) -> (r: bool)
    requires
        start <= e_at < v.len(),
        start <= 1,
        start == 1 <==> (v@[0] == '+' || v@[0] == '-'),
        is_exp_marker(v@[e_at as int]),
        digits_and_one_dot(v@.skip(start as int).take(e_at - start)),
    ensures
        r == float_literal_ok(v@),
{
    let ghost b = v@.skip(start as int);
    let ghost k = e_at - start;
    assert(strip_sign(v@) =~= b);
    let mant = any_digit_between(v, start, e_at);
    let expo = exponent_at(v, e_at + 1);
    proof {
        assert(b.take(k) =~= v@.subrange(start as int, e_at as int));
        assert(b.skip(k + 1) =~= v@.skip(e_at + 1));
        assert(b[k] == v@[e_at as int]);
        lemma_offender(b, k);
        if k > 0 {
            lemma_take_shape(b, 0, k);
        }
        lemma_not_special(b);
    }
    mant && expo
}

/// Line type for fast prefix-based highlighting
#[derive(Clone, Copy, Debug, PartialEq, Eq, Structural)]
pub enum LineType {
    Error,
    Warning,
    Help,
    HelpDetail,
    Normal,
}

/// A cached highlighted line with pre-computed tokens
#[derive(Clone, Debug)]
pub struct HighlightedLine {
    pub line_type: LineType,
    pub raw: String,
    /// Tokens for Normal lines, None for other line types
    pub tokens: Option<Vec<Token>>,
}

// ---------------------------------------------------------------------------
// Tokenizing
// ---------------------------------------------------------------------------

/// The state of the tokenizer between two characters.
pub ghost struct TokState {
    /// Tokens emitted so far, as text and kind.
    pub tokens: Seq<(Seq<char>, TokenKind)>,
    /// Inside an open `"` segment.
    pub in_quotes: bool,
    /// The word or quoted segment being accumulated.
    pub current: Seq<char>,
    /// The run of whitespace being accumulated.
    pub ws: Seq<char>,
    /// No word has been classified yet, so the next one is the command.
    pub first: bool,
}

/// The kind of a finished unquoted word.
pub open spec fn word_kind(text: Seq<char>, first: bool) -> TokenKind {
    if first {
        TokenKind::Command
    } else if looks_like_number_spec(text) {
        TokenKind::Number
    } else {
        TokenKind::Word
    }
}

/// The tokenizer before the first character.
pub open spec fn tok_init() -> TokState {
    TokState {
        tokens: Seq::empty(),
        in_quotes: false,
        current: Seq::empty(),
        ws: Seq::empty(),
        first: true,
    }
}

/// Emits the pending whitespace run, if any, as a `Space` token.
pub open spec fn flush_ws(st: TokState) -> TokState {
    if st.ws.len() > 0 {
        TokState { tokens: st.tokens.push((st.ws, TokenKind::Space)), ws: Seq::empty(), ..st }
    } else {
        st
    }
}

/// Emits the pending unquoted word, if any, classified by [`word_kind`]; after
/// it no word is first any more.
pub open spec fn flush_word(st: TokState) -> TokState {
    if st.current.len() > 0 {
        TokState {
            tokens: st.tokens.push((st.current, word_kind(st.current, st.first))),
            current: Seq::empty(),
            first: false,
            ..st
        }
    } else {
        st
    }
}

/// One character of input: a `"` opens a quoted segment (emitting pending
/// whitespace and word first) or closes it (emitting the segment, quotes
/// included, as `Quote`); inside quotes every character is kept; outside,
/// whitespace ends a word and accumulates, and any other character ends a
/// whitespace run and accumulates into the word.
pub open spec fn tok_step(st: TokState, c: char) -> TokState {
    if c == '"' {
        if !st.in_quotes {
            let st2 = flush_word(flush_ws(st));
            TokState { first: false, in_quotes: true, current: st2.current.push(c), ..st2 }
        } else {
            TokState {
                tokens: st.tokens.push((st.current.push(c), TokenKind::Quote)),
                current: Seq::empty(),
                in_quotes: false,
                ..st
            }
        }
    } else if st.in_quotes {
        TokState { current: st.current.push(c), ..st }
    } else if is_whitespace_char(c) {
        let st1 = flush_word(st);
        TokState { ws: st1.ws.push(c), ..st1 }
    } else {
        let st1 = flush_ws(st);
        TokState { current: st1.current.push(c), ..st1 }
    }
}

/// The tokenizer after reading all of `s`.
pub open spec fn tok_run(s: Seq<char>) -> TokState
    decreases s.len(),
{
    if s.len() == 0 {
        tok_init()
    } else {
        tok_step(tok_run(s.drop_last()), s.last())
    }
}

/// The tokens of a line: the state after all characters, with the pending
/// whitespace and then the pending segment emitted (an unterminated quoted
/// segment as `Quote`).
pub open spec fn tokenize_spec(line: Seq<char>) -> Seq<(Seq<char>, TokenKind)> {
    let st = flush_ws(tok_run(line));
    if st.current.len() > 0 {
        let kind = if st.in_quotes {
            TokenKind::Quote
        } else {
            word_kind(st.current, st.first)
        };
        st.tokens.push((st.current, kind))
    } else {
        st.tokens
    }
}

/// The concatenated texts of a sequence of tokens.
pub open spec fn texts_concat(ts: Seq<(Seq<char>, TokenKind)>) -> Seq<char>
    decreases ts.len(),
{
    if ts.len() == 0 {
        Seq::empty()
    } else {
        texts_concat(ts.drop_last()) + ts.last().0
    }
}

/// What holds of the tokenizer after any input: the emitted texts, then the
/// pending whitespace, then the pending segment spell the input; at most one
/// of the two is pending; inside quotes no whitespace is pending; no emitted
/// token is empty.
pub open spec fn tok_state_ok(st: TokState, s: Seq<char>) -> bool {
    &&& texts_concat(st.tokens) + st.ws + st.current == s
    &&& st.ws.len() > 0 ==> st.current.len() == 0
    &&& st.in_quotes ==> st.ws.len() == 0
    &&& forall|i: int| 0 <= i < st.tokens.len() ==> (#[trigger] st.tokens[i]).0.len() > 0
}

proof fn lemma_concat_push(ts: Seq<(Seq<char>, TokenKind)>, t: (Seq<char>, TokenKind))
    ensures
        texts_concat(ts.push(t)) == texts_concat(ts) + t.0,
{
    assert(ts.push(t).drop_last() =~= ts);
}

proof fn lemma_tok_run_ok(s: Seq<char>)
    ensures
        tok_state_ok(tok_run(s), s),
    decreases s.len(),
{
    if s.len() == 0 {
        assert(texts_concat(Seq::<(Seq<char>, TokenKind)>::empty()) =~= Seq::<char>::empty());
        assert(tok_init().ws + tok_init().current =~= Seq::<char>::empty());
        assert(s =~= Seq::<char>::empty());
        assert(texts_concat(tok_init().tokens) + tok_init().ws + tok_init().current =~= s);
        return;
    }
    let p = s.drop_last();
    let c = s.last();
    lemma_tok_run_ok(p);
    let st = tok_run(p);
    assert(p.push(c) =~= s);
    let st_ws = flush_ws(st);
    if st.ws.len() > 0 {
        lemma_concat_push(st.tokens, (st.ws, TokenKind::Space));
    }
    assert(texts_concat(st_ws.tokens) + st_ws.ws + st_ws.current =~= p);
    let st_w = flush_word(st);
    if st.current.len() > 0 {
        lemma_concat_push(st.tokens, (st.current, word_kind(st.current, st.first)));
    }
    assert(texts_concat(st_w.tokens) + st_w.ws + st_w.current =~= p);
    let nx = tok_step(st, c);
    if c == '"' {
        if !st.in_quotes {
            let st2 = flush_word(st_ws);
            if st_ws.current.len() > 0 {
                lemma_concat_push(st_ws.tokens, (st_ws.current, word_kind(st_ws.current, st_ws.first)));
            }
            assert(texts_concat(st2.tokens) + st2.ws + st2.current =~= p);
            assert(texts_concat(nx.tokens) + nx.ws + nx.current =~= s);
        } else {
            lemma_concat_push(st.tokens, (st.current.push(c), TokenKind::Quote));
            assert(texts_concat(nx.tokens) + nx.ws + nx.current =~= s);
        }
    } else if st.in_quotes {
        assert(texts_concat(nx.tokens) + nx.ws + nx.current =~= s);
    } else if is_whitespace_char(c) {
        assert(texts_concat(nx.tokens) + nx.ws + nx.current =~= s);
    } else {
        assert(texts_concat(nx.tokens) + nx.ws + nx.current =~= s);
    }
}

/// Tokenizing loses nothing and invents nothing: the token texts, in order,
/// spell the line exactly, and no token is empty.
pub proof fn lemma_tokenize_lossless(line: Seq<char>)
    ensures
        texts_concat(tokenize_spec(line)) == line,
        forall|i: int|
            0 <= i < tokenize_spec(line).len() ==> (#[trigger] tokenize_spec(line)[i]).0.len() > 0,
{
    lemma_tok_run_ok(line);
    let st = tok_run(line);
    let st1 = flush_ws(st);
    if st.ws.len() > 0 {
        lemma_concat_push(st.tokens, (st.ws, TokenKind::Space));
    }
    assert(texts_concat(st1.tokens) + st1.current =~= line);
    if st1.current.len() > 0 {
        let kind = if st1.in_quotes {
            TokenKind::Quote
        } else {
            word_kind(st1.current, st1.first)
        };
        lemma_concat_push(st1.tokens, (st1.current, kind));
    } else {
        assert(texts_concat(st1.tokens) =~= line);
    }
}

/// Whether the text has no whitespace and no `"`.
pub open spec fn plain_text(t: Seq<char>) -> bool {
    forall|i: int| 0 <= i < t.len() ==> !is_whitespace_char(#[trigger] t[i]) && t[i] != '"'
}

/// Whether the text is all whitespace.
pub open spec fn blank_text(t: Seq<char>) -> bool {
    forall|i: int| 0 <= i < t.len() ==> is_whitespace_char(#[trigger] t[i])
}

/// What a token's kind says of its text: a `Space` token is whitespace; a
/// `Quote` token starts with `"`; a command, word or number holds no
/// whitespace and no `"`, and a number reads as one.
pub open spec fn token_class_ok(t: (Seq<char>, TokenKind)) -> bool {
    match t.1 {
        TokenKind::Space => blank_text(t.0),
        TokenKind::Quote => t.0.len() > 0 && t.0[0] == '"',
        TokenKind::Number => plain_text(t.0) && looks_like_number_spec(t.0),
        _ => plain_text(t.0),
    }
}

/// What holds of the tokenizer's pending text after any input: emitted
/// tokens are classed right, pending whitespace is whitespace, and the
/// pending segment starts with `"` inside quotes and is plain outside.
pub open spec fn tok_classes_ok(st: TokState) -> bool {
    &&& forall|i: int| 0 <= i < st.tokens.len() ==> token_class_ok(#[trigger] st.tokens[i])
    &&& blank_text(st.ws)
    &&& st.in_quotes ==> st.current.len() > 0 && st.current[0] == '"'
    &&& !st.in_quotes ==> plain_text(st.current)
}

proof fn lemma_tok_run_classes(s: Seq<char>)
    ensures
        tok_classes_ok(tok_run(s)),
    decreases s.len(),
{
    if s.len() == 0 {
        return;
    }
    let p = s.drop_last();
    let c = s.last();
    lemma_tok_run_classes(p);
    let st = tok_run(p);
    let st_ws = flush_ws(st);
    let st_w = flush_word(st);
    assert(tok_classes_ok(st_ws));
    if c == '"' {
        if !st.in_quotes {
            let st2 = flush_word(st_ws);
            assert(tok_classes_ok(st2));
        } else {
            let nx = tok_step(st, c);
            assert(token_class_ok((st.current.push(c), TokenKind::Quote)));
            assert(tok_classes_ok(nx));
        }
    } else if st.in_quotes {
        let nx = tok_step(st, c);
        assert(nx.current[0] == '"');
    } else if is_whitespace_char(c) {
        assert(tok_classes_ok(st_w));
        let nx = tok_step(st, c);
        assert(blank_text(nx.ws));
    } else {
        let nx = tok_step(st, c);
        assert(plain_text(nx.current));
    }
}

/// Each token of a line is classed by what it holds: `Space` tokens are
/// whitespace, `Quote` tokens start with `"`, and commands, words and
/// numbers hold neither, numbers reading as numbers.
pub proof fn lemma_tokenize_classes(line: Seq<char>)
    ensures
        forall|i: int| 0 <= i < tokenize_spec(line).len() ==> token_class_ok(#[trigger] tokenize_spec(line)[i]),
{
    lemma_tok_run_classes(line);
    let st = tok_run(line);
    let st1 = flush_ws(st);
    assert(tok_classes_ok(st1));
    if st1.current.len() > 0 {
        let kind = if st1.in_quotes {
            TokenKind::Quote
        } else {
            word_kind(st1.current, st1.first)
        };
        assert(token_class_ok((st1.current, kind)));
    }
}

/// The classification of a finished unquoted word.
fn classify_word(text: &Vec<char>, first: bool) -> (k: TokenKind)
    ensures
        k == word_kind(text@, first),
{
    if first {
        TokenKind::Command
    } else if number_like(text) {
        TokenKind::Number
    } else {
        TokenKind::Word
    }
}

/// A token holding the given characters.
fn make_token(text: &Vec<char>, kind: TokenKind) -> (t: Token)
    ensures
        token_view(t) == (text@, kind),
{
    Token { text: string_of(text), kind }
}

impl HighlightedLine {
    /// Tokenize a line into colored tokens
    pub fn tokenize(line: &str) -> (r: Vec<Token>)
        ensures
            tokens_view(r@) == tokenize_spec(line@),
    {
        let v = chars_of(line);
        let mut tokens: Vec<Token> = Vec::new();
        let mut in_quotes = false;
        let mut current: Vec<char> = Vec::new();
        let mut whitespace: Vec<char> = Vec::new();
        let mut is_first_word = true;
        let mut i: usize = 0;
        assert(v@.take(0) =~= Seq::<char>::empty());
        while i < v.len()
            invariant
                i <= v.len(),
                v@ == line@,
                ({
                    let st = tok_run(v@.take(i as int));
                    &&& tokens_view(tokens@) == st.tokens
                    &&& in_quotes == st.in_quotes
                    &&& current@ == st.current
                    &&& whitespace@ == st.ws
                    &&& is_first_word == st.first
                }),
            decreases v.len() - i,
        {
            let c = v[i];
            let ghost st = tok_run(v@.take(i as int));
            proof {
                assert(v@.take(i + 1).drop_last() =~= v@.take(i as int));
                assert(v@.take(i + 1).last() == c);
            }
            if c == '"' {
                if !in_quotes {
                    if whitespace.len() > 0 {
                        tokens.push(make_token(&whitespace, TokenKind::Space));
                        whitespace = Vec::new();
                    }
                    if current.len() > 0 {
                        let kind = classify_word(&current, is_first_word);
                        tokens.push(make_token(&current, kind));
                        current = Vec::new();
                    }
                    is_first_word = false;
                    in_quotes = true;
                    current.push(c);
                } else {
                    current.push(c);
                    in_quotes = false;
                    tokens.push(make_token(&current, TokenKind::Quote));
                    current = Vec::new();
                }
            } else if in_quotes {
                current.push(c);
            } else if is_whitespace(c) {
                if current.len() > 0 {
                    let kind = classify_word(&current, is_first_word);
                    is_first_word = false;
                    tokens.push(make_token(&current, kind));
                    current = Vec::new();
                }
                whitespace.push(c);
            } else {
                if whitespace.len() > 0 {
                    tokens.push(make_token(&whitespace, TokenKind::Space));
                    whitespace = Vec::new();
                }
                current.push(c);
            }
            proof {
                let st2 = tok_step(st, c);
                assert(tokens_view(tokens@) =~= st2.tokens);
                assert(current@ =~= st2.current);
                assert(whitespace@ =~= st2.ws);
            }
            i += 1;
        }
        assert(v@.take(v.len() as int) =~= v@);
        let ghost st = tok_run(line@);
        if whitespace.len() > 0 {
            tokens.push(make_token(&whitespace, TokenKind::Space));
        }
        assert(tokens_view(tokens@) =~= flush_ws(st).tokens);
        if current.len() > 0 {
            let kind = if in_quotes {
                TokenKind::Quote
            } else {
                classify_word(&current, is_first_word)
            };
            tokens.push(make_token(&current, kind));
        }
        assert(tokens_view(tokens@) =~= tokenize_spec(line@));
        tokens
    }
}

/// The highlighting class of a console line, decided by its prefix.
pub open spec fn line_type_of(s: Seq<char>) -> LineType {
    if has_prefix(s, "Unknown command"@) || has_prefix(s, "Error"@) {
        LineType::Error
    } else if has_prefix(s, "Warning"@) {
        LineType::Warning
    } else if has_prefix(s, "Available commands:"@) || has_prefix(s, "Type 'help'"@) || has_prefix(
        s,
        "Usage:"@,
    ) {
        LineType::Help
    } else if has_prefix(s, "  "@) && has_infix(s, " - "@) {
        LineType::HelpDetail
    } else {
        LineType::Normal
    }
}

/// Lines that start with `Type 'help'`, `Available commands:` or `Usage:`
/// are help lines; lines that start with `Unknown command` or `Error` are
/// error lines, and those that start with `Warning` warnings.
pub proof fn lemma_line_types_by_prefix(s: Seq<char>)
    ensures
        has_prefix(s, "Type 'help'"@) ==> line_type_of(s) == LineType::Help,
        has_prefix(s, "Available commands:"@) ==> line_type_of(s) == LineType::Help,
        has_prefix(s, "Usage:"@) ==> line_type_of(s) == LineType::Help,
        has_prefix(s, "Unknown command"@) ==> line_type_of(s) == LineType::Error,
        has_prefix(s, "Error"@) ==> line_type_of(s) == LineType::Error,
        has_prefix(s, "Warning"@) ==> line_type_of(s) == LineType::Warning,
{
    reveal_strlit("Type 'help'");
    reveal_strlit("Available commands:");
    reveal_strlit("Usage:");
    reveal_strlit("Unknown command");
    reveal_strlit("Error");
    reveal_strlit("Warning");
    if has_prefix(s, "Type 'help'"@) {
        assert(s[0] == s.take(11)[0]);
    }
    if has_prefix(s, "Available commands:"@) {
        assert(s[0] == s.take(19)[0]);
    }
    if has_prefix(s, "Usage:"@) {
        assert(s[0] == s.take(6)[0]);
        assert(s[1] == s.take(6)[1]);
    }
    if has_prefix(s, "Unknown command"@) {
        assert(s[0] == s.take(15)[0]);
        assert(s[1] == s.take(15)[1]);
    }
    if has_prefix(s, "Error"@) {
        assert(s[0] == s.take(5)[0]);
    }
    if has_prefix(s, "Warning"@) {
        assert(s[0] == s.take(7)[0]);
    }
    if has_prefix(s, "Unknown command"@) {
        assert(s.take(15)[0] == 'U');
    }
}

impl HighlightedLine {
    /// Parse and highlight a line, caching the result
    pub fn new(line: String) -> (r: Self)
        ensures
            r.raw@ == line@,
            r.line_type == line_type_of(line@),
            r.line_type == LineType::Normal ==> (r.tokens matches Some(ts) && tokens_view(ts@)
                == tokenize_spec(line@)),
            r.line_type != LineType::Normal ==> r.tokens is None,
    {
        let v = chars_of(line.as_str());
        let line_type = if starts_with(&v, "Unknown command") || starts_with(&v, "Error") {
            LineType::Error
        } else if starts_with(&v, "Warning") {
            LineType::Warning
        } else if starts_with(&v, "Available commands:") || starts_with(&v, "Type 'help'")
            || starts_with(&v, "Usage:") {
            LineType::Help
        } else if starts_with(&v, "  ") && contains_text(&v, " - ") {
            LineType::HelpDetail
        } else {
            LineType::Normal
        };
        let tokens = if line_type == LineType::Normal {
            Some(Self::tokenize(line.as_str()))
        } else {
            None
        };
        HighlightedLine { line_type, raw: line, tokens }
    }
}

// ---------------------------------------------------------------------------
// Command-line parsing
// ---------------------------------------------------------------------------

/// A command line split into its name and arguments.
#[derive(Clone, Debug, PartialEq, Eq)]
pub struct ParsedCommand {
    pub raw: String,
    pub name: String,
    pub args: Vec<String>,
}

/// The state of the splitter: finished parts, the part being read, and
/// whether a `"` segment is open.
pub open spec fn split_step(
    st: (Seq<Seq<char>>, Seq<char>, bool),
    c: char,
) -> (Seq<Seq<char>>, Seq<char>, bool) {
    let (parts, cur, quoted) = st;
    if c == '"' {
        (parts, cur, !quoted)
    } else if is_whitespace_char(c) && !quoted {
        if cur.len() > 0 {
            (parts.push(cur), Seq::empty(), quoted)
        } else {
            (parts, cur, quoted)
        }
    } else {
        (parts, cur.push(c), quoted)
    }
}

/// The splitter after reading all of `s`.
pub open spec fn split_run(s: Seq<char>) -> (Seq<Seq<char>>, Seq<char>, bool)
    decreases s.len(),
{
    if s.len() == 0 {
        (Seq::empty(), Seq::empty(), false)
    } else {
        split_step(split_run(s.drop_last()), s.last())
    }
}

/// The parts of a command line: whitespace outside `"` segments separates
/// parts, the quote characters themselves are dropped, and empty parts are
/// skipped.
pub open spec fn command_parts(s: Seq<char>) -> Seq<Seq<char>> {
    let (parts, cur, _) = split_run(s);
    if cur.len() > 0 {
        parts.push(cur)
    } else {
        parts
    }
}

/// Splits a trimmed command line into its parts.
fn split_parts(v: &Vec<char>) -> (r: Vec<String>)
    ensures
        views(r@) == command_parts(v@),
{
    let mut parts: Vec<String> = Vec::new();
    let mut current: Vec<char> = Vec::new();
    let mut in_quotes = false;
    let mut i: usize = 0;
    assert(v@.take(0) =~= Seq::<char>::empty());
    assert(views(parts@) =~= Seq::<Seq<char>>::empty());
    while i < v.len()
        invariant
            i <= v.len(),
            ({
                let (ps, cur, q) = split_run(v@.take(i as int));
                &&& views(parts@) == ps
                &&& current@ == cur
                &&& in_quotes == q
            }),
        decreases v.len() - i,
    {
        let ch = v[i];
        proof {
            assert(v@.take(i + 1).drop_last() =~= v@.take(i as int));
        }
        if ch == '"' {
            in_quotes = !in_quotes;
        } else if is_whitespace(ch) && !in_quotes {
            if current.len() > 0 {
                parts.push(string_of(&current));
                current = Vec::new();
            }
        } else {
            current.push(ch);
        }
        proof {
            let (ps, cur, q) = split_run(v@.take((i + 1) as int));
            assert(views(parts@) =~= ps);
            assert(current@ =~= cur);
        }
        i += 1;
    }
    assert(v@.take(v.len() as int) =~= v@);
    if current.len() > 0 {
        parts.push(string_of(&current));
    }
    assert(views(parts@) =~= command_parts(v@));
    parts
}

/// The parsed form of a command line: `None` when the trimmed line has no
/// parts; otherwise the trimmed line, the first part lowercased, and the other
/// parts as arguments.
pub open spec fn parse_command_spec(input: Seq<char>) -> Option<(Seq<char>, Seq<char>, Seq<Seq<char>>)> {
    let trimmed = trim_spec(input);
    let parts = command_parts(trimmed);
    if trimmed.len() == 0 || parts.len() == 0 {
        None
    } else {
        Some((trimmed, lowercase_text(parts[0]), parts.drop_first()))
    }
}

/// The first word of a command line, as typed.
pub open spec fn command_word(input: Seq<char>) -> Seq<char> {
    command_parts(trim_spec(input))[0]
}

/// Splits a command line into a lowercased command name and its arguments.
/// A command word typed in ASCII comes out with its capitals made small.
pub fn parse_command_line(input: &str) -> (r: Option<ParsedCommand>)
    ensures
        match parse_command_spec(input@) {
            None => r is None,
            Some((raw, name, args)) => r matches Some(p) && p.raw@ == raw && p.name@ == name
                && views(p.args@) == args,
        },
        is_ascii_text(command_word(input@)) ==> (r matches Some(p) ==> p.name@ == ascii_lowercase_text(
            command_word(input@),
        )),
{
    let v = chars_of(input);
    let trimmed = trim_chars(&v);
    if trimmed.len() == 0 {
        return None;
    }
    let mut parts = split_parts(&trimmed);
    if parts.len() == 0 {
        return None;
    }
    let first = parts.remove(0);
    let name = to_lowercase(first.as_str());
    proof {
        assert(views(parts@) =~= command_parts(trimmed@).drop_first());
    }
    Some(ParsedCommand { raw: string_of(&trimmed), name, args: parts })
}

// ---------------------------------------------------------------------------
// Console state
// ---------------------------------------------------------------------------

/// Whether a highlighted line carries the highlighting of its raw text.
pub open spec fn highlighted_ok(h: HighlightedLine) -> bool {
    &&& h.line_type == line_type_of(h.raw@)
    &&& h.line_type == LineType::Normal ==> (h.tokens matches Some(ts) && tokens_view(ts@)
        == tokenize_spec(h.raw@))
    &&& h.line_type != LineType::Normal ==> h.tokens is None
}

/// The raw texts of highlighted lines.
pub open spec fn raws(ls: Seq<HighlightedLine>) -> Seq<Seq<char>> {
    ls.map_values(|h: HighlightedLine| h.raw@)
}

/// The console's output log, input line and queued commands.
pub struct ConsoleState {
    input: String,
    log: Vec<HighlightedLine>,
    scroll_to_end: bool,
    pending: Vec<String>,
    last_command: Option<String>,
    dirty: bool,
}

/// A call on the console's state, as the redraw flag sees it.
pub enum ConsoleCall {
    Clear,
    LogLine,
    LogLines { count: usize },
    TakePending,
    SetInput { text: String },
    ClearDirty,
    IsDirty,
}

/// Whether a call, made while the input line holds `input`, asks for a
/// redraw: clearing, logging a line or a non-empty batch of lines, or
/// changing the input line.
pub open spec fn marks_dirty(input: Seq<char>, c: ConsoleCall) -> bool {
    match c {
        ConsoleCall::Clear => true,
        ConsoleCall::LogLine => true,
        ConsoleCall::LogLines { count } => count > 0,
        ConsoleCall::SetInput { text } => text@ != input,
        _ => false,
    }
}

/// The redraw flag and the input line after a call.
pub open spec fn redraw_step(state: (bool, Seq<char>), c: ConsoleCall) -> (bool, Seq<char>) {
    match c {
        ConsoleCall::ClearDirty => (false, state.1),
        ConsoleCall::SetInput { text } => (state.0 || text@ != state.1, text@),
        _ => (state.0 || marks_dirty(state.1, c), state.1),
    }
}

/// The redraw flag and the input line after a run of calls.
pub open spec fn redraw_run(state: (bool, Seq<char>), calls: Seq<ConsoleCall>) -> (bool, Seq<char>)
    decreases calls.len(),
{
    if calls.len() == 0 {
        state
    } else {
        redraw_step(redraw_run(state, calls.drop_last()), calls.last())
    }
}

/// No call from position `from` on is `clear_dirty`.
pub open spec fn no_redraw_since(calls: Seq<ConsoleCall>, from: int) -> bool {
    forall|j: int| from <= j < calls.len() ==> !(#[trigger] calls[j] is ClearDirty)
}

proof fn lemma_no_redraw_prefix(calls: Seq<ConsoleCall>, a: int)
    requires
        calls.len() > 0,
        0 <= a <= calls.len() - 1,
    ensures
        no_redraw_since(calls, a) <==> (no_redraw_since(calls.drop_last(), a) && !(calls.last() is ClearDirty)),
{
    let prefix = calls.drop_last();
    if no_redraw_since(calls, a) {
        assert(!(calls[calls.len() - 1] is ClearDirty));
        assert forall|j: int| a <= j < prefix.len() implies !(#[trigger] prefix[j] is ClearDirty) by {
            assert(prefix[j] == calls[j]);
        }
    }
    if no_redraw_since(prefix, a) && !(calls.last() is ClearDirty) {
        assert forall|j: int| a <= j < calls.len() implies !(#[trigger] calls[j] is ClearDirty) by {
            if j < prefix.len() {
                assert(prefix[j] == calls[j]);
            }
        }
    }
}

/// The console asks for a redraw after a run of calls exactly when it did
/// before them and none of them was `clear_dirty`, or when one of them asked
/// for a redraw (a clear, a logged line, a non-empty batch of lines, or a
/// changed input line) and no `clear_dirty` came after it; `take_pending`
/// and `is_dirty` never change it.
pub proof fn lemma_dirty_since_last_redraw(state: (bool, Seq<char>), calls: Seq<ConsoleCall>)
    ensures
        redraw_run(state, calls).0 <==> ((state.0 && no_redraw_since(calls, 0)) || exists|k: int|
            0 <= k < calls.len() && marks_dirty(redraw_run(state, calls.take(k)).1, #[trigger] calls[k])
                && no_redraw_since(calls, k + 1)),
    decreases calls.len(),
{
    if calls.len() > 0 {
        let n = calls.len() - 1;
        let prefix = calls.drop_last();
        lemma_dirty_since_last_redraw(state, prefix);
        assert(calls.take(n) =~= prefix);
        assert forall|k: int| 0 <= k < n implies #[trigger] calls.take(k) == prefix.take(k) by {
            assert(calls.take(k) =~= prefix.take(k));
        }
        let before = redraw_run(state, prefix);
        let goal = (state.0 && no_redraw_since(calls, 0)) || exists|k: int|
            0 <= k < calls.len() && marks_dirty(redraw_run(state, calls.take(k)).1, #[trigger] calls[k])
                && no_redraw_since(calls, k + 1);
        if calls[n] is ClearDirty {
            assert(!no_redraw_since(calls, 0));
            assert forall|k: int| 0 <= k < calls.len() implies !(marks_dirty(redraw_run(state, calls.take(k)).1, #[trigger] calls[k])
                && no_redraw_since(calls, k + 1)) by {
                if k < n {
                    assert(!no_redraw_since(calls, k + 1));
                }
            }
        } else {
            assert(no_redraw_since(calls, n + 1));
            lemma_no_redraw_prefix(calls, 0);
            if marks_dirty(before.1, calls[n]) {
                assert(marks_dirty(redraw_run(state, calls.take(n)).1, calls[n]) && no_redraw_since(calls, n + 1));
            } else {
                if goal {
                    if !(state.0 && no_redraw_since(calls, 0)) {
                        let k = choose|k: int| 0 <= k < calls.len() && marks_dirty(redraw_run(state, calls.take(k)).1, #[trigger] calls[k])
                            && no_redraw_since(calls, k + 1);
                        assert(k < n);
                        assert(prefix[k] == calls[k]);
                        lemma_no_redraw_prefix(calls, k + 1);
                    }
                }
                if redraw_run(state, calls).0 {
                    if !(state.0 && no_redraw_since(prefix, 0)) {
                        let k = choose|k: int| 0 <= k < prefix.len() && marks_dirty(redraw_run(state, prefix.take(k)).1, #[trigger] prefix[k])
                            && no_redraw_since(prefix, k + 1);
                        assert(prefix[k] == calls[k]);
                        lemma_no_redraw_prefix(calls, k + 1);
                        assert(marks_dirty(redraw_run(state, calls.take(k)).1, calls[k]) && no_redraw_since(calls, k + 1));
                    }
                }
            }
        }
    }
}

impl ConsoleState {
    /// Every logged line carries its own highlighting.
    pub closed spec fn wf(&self) -> bool {
        forall|i: int| 0 <= i < self.log@.len() ==> highlighted_ok(#[trigger] self.log@[i])
    }

    /// The raw texts of the logged lines, oldest first.
    pub closed spec fn log_view(&self) -> Seq<Seq<char>> {
        raws(self.log@)
    }

    /// The current input line.
    pub closed spec fn input_view(&self) -> Seq<char> {
        self.input@
    }

    /// Commands submitted and not yet taken, oldest first.
    pub closed spec fn pending_view(&self) -> Seq<Seq<char>> {
        views(self.pending@)
    }

    /// The last submitted non-blank command.
    pub closed spec fn last_command_view(&self) -> Option<Seq<char>> {
        match self.last_command {
            Some(c) => Some(c@),
            None => None,
        }
    }

    /// Whether a redraw was requested.
    pub closed spec fn dirty_view(&self) -> bool {
        self.dirty
    }

    /// Whether the view should scroll to the newest line.
    pub closed spec fn scroll_view(&self) -> bool {
        self.scroll_to_end
    }

    /// An empty console.
    pub fn new() -> (r: Self)
        ensures
            r.wf(),
            r.log_view() == Seq::<Seq<char>>::empty(),
            r.input_view() == Seq::<char>::empty(),
            r.pending_view() == Seq::<Seq<char>>::empty(),
            r.last_command_view() is None,
            !r.dirty_view(),
            !r.scroll_view(),
    {
        let r = ConsoleState {
            input: String::new(),
            log: Vec::new(),
            scroll_to_end: false,
            pending: Vec::new(),
            last_command: None,
            dirty: false,
        };
        assert(raws(r.log@) =~= Seq::<Seq<char>>::empty());
        assert(views(r.pending@) =~= Seq::<Seq<char>>::empty());
        r
    }

    /// Empties the log; the view scrolls and is redrawn.
    pub fn clear(&mut self)
        requires
            old(self).wf(),
        ensures
            final(self).wf(),
            (final(self).dirty_view(), final(self).input_view()) == redraw_step(
                (old(self).dirty_view(), old(self).input_view()),
                ConsoleCall::Clear,
            ),
            final(self).log_view() == Seq::<Seq<char>>::empty(),
            final(self).scroll_view(),
            final(self).dirty_view(),
            final(self).input_view() == old(self).input_view(),
            final(self).pending_view() == old(self).pending_view(),
            final(self).last_command_view() == old(self).last_command_view(),
    {
        self.log = Vec::new();
        self.scroll_to_end = true;
        self.dirty = true;
        assert(raws(self.log@) =~= Seq::<Seq<char>>::empty());
    }

    fn push_line(&mut self, s: String)
        requires
            old(self).wf(),
        ensures
            final(self).wf(),
            final(self).log_view() == old(self).log_view().push(s@),
            final(self).scroll_view(),
            final(self).dirty_view(),
            final(self).input_view() == old(self).input_view(),
            final(self).pending_view() == old(self).pending_view(),
            final(self).last_command_view() == old(self).last_command_view(),
    {
        let line = HighlightedLine::new(s);
        self.log.push(line);
        self.scroll_to_end = true;
        self.dirty = true;
        assert(raws(self.log@) =~= raws(old(self).log@).push(line.raw@));
    }

    /// Appends one line to the log.
    pub fn log_line(&mut self, s: &str)
        requires
            old(self).wf(),
        ensures
            final(self).wf(),
            (final(self).dirty_view(), final(self).input_view()) == redraw_step(
                (old(self).dirty_view(), old(self).input_view()),
                ConsoleCall::LogLine,
            ),
            final(self).log_view() == old(self).log_view().push(s@),
            final(self).scroll_view(),
            final(self).dirty_view(),
            final(self).input_view() == old(self).input_view(),
            final(self).pending_view() == old(self).pending_view(),
            final(self).last_command_view() == old(self).last_command_view(),
    {
        self.push_line(owned(s));
    }

    /// Appends lines to the log in order.
    pub fn log_lines(&mut self, lines: Vec<String>)
        requires
            old(self).wf(),
        ensures
            final(self).wf(),
            (final(self).dirty_view(), final(self).input_view()) == redraw_step(
                (old(self).dirty_view(), old(self).input_view()),
                ConsoleCall::LogLines { count: lines.len() },
            ),
            final(self).log_view() == old(self).log_view() + views(lines@),
            lines@.len() > 0 ==> final(self).scroll_view() && final(self).dirty_view(),
            lines@.len() == 0 ==> final(self).scroll_view() == old(self).scroll_view()
                && final(self).dirty_view() == old(self).dirty_view(),
            final(self).input_view() == old(self).input_view(),
            final(self).pending_view() == old(self).pending_view(),
            final(self).last_command_view() == old(self).last_command_view(),
    {
        let mut i: usize = 0;
        let ghost start = self.log_view();
        let ghost scroll0 = self.scroll_view();
        let ghost dirty0 = self.dirty_view();
        while i < lines.len()
            invariant
                i <= lines.len(),
                self.log_view() == start + views(lines@).take(i as int),
                i > 0 ==> self.scroll_view() && self.dirty_view(),
                i == 0 ==> self.scroll_view() == scroll0 && self.dirty_view() == dirty0,
                self.input_view() == old(self).input_view(),
                self.pending_view() == old(self).pending_view(),
                self.last_command_view() == old(self).last_command_view(),
                start == old(self).log_view(),
                scroll0 == old(self).scroll_view(),
                dirty0 == old(self).dirty_view(),
                self.wf(),
            decreases lines.len() - i,
        {
            self.push_line(lines[i].clone());
            i += 1;
            assert(start + views(lines@).take(i as int) =~= (start + views(lines@).take(i - 1)).push(
                lines@[i - 1]@,
            ));
        }
        assert(views(lines@).take(lines.len() as int) =~= views(lines@));
    }

    /// Hands out the queued commands, leaving none queued.
    pub fn take_pending(&mut self) -> (r: Vec<String>)
        requires
            old(self).wf(),
        ensures
            final(self).wf(),
            (final(self).dirty_view(), final(self).input_view()) == redraw_step(
                (old(self).dirty_view(), old(self).input_view()),
                ConsoleCall::TakePending,
            ),
            views(r@) == old(self).pending_view(),
            final(self).pending_view() == Seq::<Seq<char>>::empty(),
            final(self).log_view() == old(self).log_view(),
            final(self).input_view() == old(self).input_view(),
            final(self).last_command_view() == old(self).last_command_view(),
            final(self).dirty_view() == old(self).dirty_view(),
            final(self).scroll_view() == old(self).scroll_view(),
    {
        let mut r: Vec<String> = Vec::new();
        std::mem::swap(&mut r, &mut self.pending);
        assert(views(self.pending@) =~= Seq::<Seq<char>>::empty());
        r
    }

    /// Replaces the input line; a change marks the console dirty.
    pub fn set_input(&mut self, new_input: String)
        requires
            old(self).wf(),
        ensures
            final(self).wf(),
            (final(self).dirty_view(), final(self).input_view()) == redraw_step(
                (old(self).dirty_view(), old(self).input_view()),
                ConsoleCall::SetInput { text: new_input },
            ),
            final(self).input_view() == new_input@,
            final(self).dirty_view() == (old(self).dirty_view() || old(self).input_view()
                != new_input@),
            final(self).log_view() == old(self).log_view(),
            final(self).pending_view() == old(self).pending_view(),
            final(self).last_command_view() == old(self).last_command_view(),
            final(self).scroll_view() == old(self).scroll_view(),
    {
        if self.input != new_input {
            self.input = new_input;
            self.dirty = true;
        }
    }

    /// Whether a redraw was requested.
    pub fn is_dirty(&self) -> (r: bool)
        ensures
            r == self.dirty_view(),
    {
        self.dirty
    }

    /// Marks the console as redrawn.
    pub fn clear_dirty(&mut self)
        requires
            old(self).wf(),
        ensures
            final(self).wf(),
            (final(self).dirty_view(), final(self).input_view()) == redraw_step(
                (old(self).dirty_view(), old(self).input_view()),
                ConsoleCall::ClearDirty,
            ),
            !final(self).dirty_view(),
            final(self).log_view() == old(self).log_view(),
            final(self).input_view() == old(self).input_view(),
            final(self).pending_view() == old(self).pending_view(),
            final(self).last_command_view() == old(self).last_command_view(),
            final(self).scroll_view() == old(self).scroll_view(),
    {
        self.dirty = false;
    }

    /// The current input line.
    pub fn input(&self) -> (r: &str)
        ensures
            r@ == self.input_view(),
    {
        self.input.as_str()
    }

    /// The logged lines, oldest first, each with its highlighting.
    pub fn lines(&self) -> (r: &[HighlightedLine])
        requires
            self.wf(),
        ensures
            raws(r@) == self.log_view(),
            forall|i: int| 0 <= i < r@.len() ==> highlighted_ok(#[trigger] r@[i]),
    {
        self.log.as_slice()
    }

    /// The position of the first line the view shows when it shows at most
    /// `max_lines` lines: the newest ones.
    pub fn first_visible_line(&self, max_lines: usize) -> (r: usize)
        ensures
            r == (if self.log_view().len() > max_lines {
                self.log_view().len() - max_lines
            } else {
                0
            }),
    {
        proof {
            assert(raws(self.log@).len() == self.log@.len());
        }
        self.log.len().saturating_sub(max_lines)
    }

    /// Submits the input line (the Run button or Enter): it is queued, it
    /// becomes the last command unless it is blank, and the input is emptied.
    pub fn submit_input(&mut self)
        requires
            old(self).wf(),
        ensures
            final(self).wf(),
            final(self).pending_view() == old(self).pending_view().push(old(self).input_view()),
            final(self).last_command_view() == (if trim_spec(old(self).input_view()).len() > 0 {
                Some(old(self).input_view())
            } else {
                old(self).last_command_view()
            }),
            final(self).input_view() == Seq::<char>::empty(),
            final(self).log_view() == old(self).log_view(),
            final(self).dirty_view() == old(self).dirty_view(),
            final(self).scroll_view() == old(self).scroll_view(),
    {
        let cmd = self.input.clone();
        let v = chars_of(cmd.as_str());
        let t = trim_chars(&v);
        if t.len() > 0 {
            self.last_command = Some(cmd.clone());
        }
        self.pending.push(cmd);
        self.input = String::new();
        assert(views(self.pending@) =~= views(old(self).pending@).push(old(self).input@));
    }

    /// Puts the last submitted command back into the input line (arrow up),
    /// when there is one.
    pub fn recall_last_command(&mut self)
        requires
            old(self).wf(),
        ensures
            final(self).wf(),
            final(self).input_view() == (match old(self).last_command_view() {
                Some(c) => c,
                None => old(self).input_view(),
            }),
            final(self).last_command_view() == old(self).last_command_view(),
            final(self).log_view() == old(self).log_view(),
            final(self).pending_view() == old(self).pending_view(),
            final(self).dirty_view() == old(self).dirty_view(),
            final(self).scroll_view() == old(self).scroll_view(),
    {
        match &self.last_command {
            Some(cmd) => {
                self.input = cmd.clone();
            },
            None => {},
        }
    }

    /// Reports whether the view should scroll to the newest line, and clears
    /// the request.
    pub fn take_scroll_request(&mut self) -> (r: bool)
        requires
            old(self).wf(),
        ensures
            final(self).wf(),
            r == old(self).scroll_view(),
            !final(self).scroll_view(),
            final(self).log_view() == old(self).log_view(),
            final(self).input_view() == old(self).input_view(),
            final(self).pending_view() == old(self).pending_view(),
            final(self).last_command_view() == old(self).last_command_view(),
            final(self).dirty_view() == old(self).dirty_view(),
    {
        let r = self.scroll_to_end;
        self.scroll_to_end = false;
        r
    }
}

impl Default for ConsoleState {
    fn default() -> (r: Self)
        ensures
            r.wf(),
            r.log_view() == Seq::<Seq<char>>::empty(),
            r.input_view() == Seq::<char>::empty(),
            r.pending_view() == Seq::<Seq<char>>::empty(),
            r.last_command_view() is None,
            !r.dirty_view(),
            !r.scroll_view(),
    {
        Self::new()
    }
}

// ---------------------------------------------------------------------------
// Commands
// ---------------------------------------------------------------------------

/// One save folder as listed by `save.list`.
#[derive(Clone, Debug, PartialEq, Eq)]
pub struct SaveListEntry {
    pub folder_name: String,
    pub save_name: String,
    pub difficulty: Option<String>,
    pub created_at: Option<String>,
}

/// The summary of one save shown by `save.inspect`.
#[derive(Clone, Debug, PartialEq, Eq)]
pub struct SaveInspection {
    pub folder_name: String,
    pub save_name: String,
    pub difficulty: Option<String>,
    pub current_floor: u32,
    pub level: u32,
    pub coins: i32,
}

/// What the game reads from disk for `save.inspect`: the save's folder, the
/// text of its `save.json`, and its player's floor, level and coins.
#[derive(Clone, Debug, PartialEq, Eq)]
pub struct SaveFiles {
    pub folder_name: String,
    pub save_json: String,
    pub current_floor: u32,
    pub level: u32,
    pub coins: i32,
}

/// What the console commands need from the running game. The game implements
/// it; reading saves and settings from disk happens there.
pub trait ConsoleCommandContext {
    fn clear_console(&mut self);

    fn open_preview(&mut self, name: &str) -> Result<(), String>;

    fn list_previews(&self) -> Vec<String>;

    fn current_save(&self) -> Option<String>;

    /// The save folders found on disk, each with the text of its
    /// `save.json` when that file could be read; none when there is no saves
    /// directory.
    fn list_save_folders(&self) -> Result<Vec<(String, Option<String>)>, String>;

    /// What is stored for the save named `requested`, or for the current
    /// save when none is named.
    fn load_save(&self, requested: Option<&str>) -> Result<SaveFiles, String>;

    fn read_owned_skills(&self) -> Result<Vec<(String, i8)>, String>;

    fn get_setting_value(&self, key: &str) -> Result<String, String>;

    fn list_setting_values(&self) -> Vec<(String, String)>;

    fn set_setting_value(&mut self, key: &str, value: &str) -> Result<String, String>;

    fn regenerate_grid_preview(&mut self) -> Result<String, String>;

    fn reset_grid_preview(&mut self) -> Result<String, String>;
}

/// What running a command does.
#[derive(Clone, Copy, Debug, PartialEq, Eq, Structural)]
pub enum CommandAction {
    Help,
    Clear,
    Echo,
    Invoke,
    UiList,
    SaveCurrent,
    SaveList,
    SaveInspect,
    SkillsList,
    SettingsGet,
    SettingsSet,
    GridRegen,
    GridResetView,
}

/// A console command: its names, its help texts, and what it does.
pub struct ConsoleCommand {
    pub name: &'static str,
    pub aliases: &'static [&'static str],
    pub usage: &'static str,
    pub description: &'static str,
    pub dev_only: bool,
    pub action: CommandAction,
}

/// The aliases of a command as texts.
pub open spec fn alias_views(c: ConsoleCommand) -> Seq<Seq<char>> {
    c.aliases@.map_values(|a: &str| a@)
}

/// Whether a command answers to a name, ignoring ASCII case, by its name or
/// one of its aliases.
pub open spec fn answers_to(c: ConsoleCommand, name: Seq<char>) -> bool {
    eq_ignore_ascii_case_spec(c.name@, name) || exists|j: int|
        0 <= j < c.aliases@.len() && eq_ignore_ascii_case_spec(#[trigger] c.aliases@[j]@, name)
}

/// The index of the first command that answers to `name`.
pub open spec fn find_index(cs: Seq<ConsoleCommand>, name: Seq<char>) -> Option<int>
    decreases cs.len(),
{
    if cs.len() == 0 {
        None
    } else {
        match find_index(cs.drop_last(), name) {
            Some(i) => Some(i),
            None => if answers_to(cs.last(), name) {
                Some(cs.len() - 1)
            } else {
                None
            },
        }
    }
}

/// Two names equal up to ASCII case find the same command.
pub proof fn lemma_lookup_ignores_ascii_case(cs: Seq<ConsoleCommand>, a: Seq<char>, b: Seq<char>)
    requires
        eq_ignore_ascii_case_spec(a, b),
    ensures
        find_index(cs, a) == find_index(cs, b),
    decreases cs.len(),
{
    if cs.len() > 0 {
        lemma_lookup_ignores_ascii_case(cs.drop_last(), a, b);
        let c = cs.last();
        assert(eq_ignore_ascii_case_spec(c.name@, a) == eq_ignore_ascii_case_spec(c.name@, b));
        assert forall|j: int| 0 <= j < c.aliases@.len() implies eq_ignore_ascii_case_spec(
            #[trigger] c.aliases@[j]@,
            a,
        ) == eq_ignore_ascii_case_spec(c.aliases@[j]@, b) by {}
        assert(answers_to(c, a) == answers_to(c, b));
    }
}

/// A command word typed in ASCII finds the same command whatever the case
/// of its letters: its lowercase form, which the parser hands on, finds
/// what the word itself would.
pub proof fn lemma_command_case_insensitive(cs: Seq<ConsoleCommand>, word: Seq<char>)
    ensures
        find_index(cs, ascii_lowercase_text(word)) == find_index(cs, word),
{
    lemma_ascii_lowercase_same(word);
    lemma_lookup_ignores_ascii_case(cs, ascii_lowercase_text(word), word);
}

/// The registry of console commands.
pub struct ConsoleRegistry {
    commands: Vec<ConsoleCommand>,
}

/// The line `  <usage> - <description>` of the help overview.
pub open spec fn overview_line(c: ConsoleCommand) -> Seq<char> {
    "  "@ + c.usage@ + " - "@ + c.description@
}

/// The help overview: a heading and one line per command.
pub open spec fn help_overview(cs: Seq<ConsoleCommand>) -> Seq<Seq<char>> {
    seq!["Available commands:"@] + cs.map_values(|c: ConsoleCommand| overview_line(c))
}

/// The detailed help of one command.
pub open spec fn command_help(c: ConsoleCommand) -> Seq<Seq<char>> {
    let base = seq!["Usage: "@ + c.usage@, "  "@ + c.name@ + " - "@ + c.description@];
    let with_aliases = if c.aliases@.len() > 0 {
        base.push("Aliases: "@ + join_spec(alias_views(c), ", "@))
    } else {
        base
    };
    if c.dev_only {
        with_aliases.push("Developer-only command."@)
    } else {
        with_aliases
    }
}

/// The result of `help <name>`: the command's help, or an error naming it.
pub open spec fn command_help_result(cs: Seq<ConsoleCommand>, name: Seq<char>) -> Result<
    Seq<Seq<char>>,
    Seq<char>,
> {
    match find_index(cs, name) {
        Some(i) => Ok(command_help(cs[i])),
        None => Err("Unknown command: "@ + name),
    }
}

/// The lines shown for a failed command: errors that already start with
/// `Usage:` or `Error:` as they are, others prefixed with `Error: `.
pub open spec fn error_lines(e: Seq<char>) -> Seq<Seq<char>> {
    if has_prefix(e, "Usage:"@) || has_prefix(e, "Error:"@) {
        seq![e]
    } else {
        seq!["Error: "@ + e]
    }
}

/// The lines shown for a command's outcome.
pub open spec fn outcome_lines(res: Result<Seq<Seq<char>>, Seq<char>>) -> Seq<Seq<char>> {
    match res {
        Ok(lines) => lines,
        Err(e) => error_lines(e),
    }
}

/// The lines of `ui.list`.
pub open spec fn preview_list_lines(previews: Seq<Seq<char>>) -> Seq<Seq<char>> {
    seq!["Known preview UIs:"@] + previews.map_values(|p: Seq<char>| "  "@ + p)
}

/// The line of `save.current`.
pub open spec fn current_save_line(current: Option<Seq<char>>) -> Seq<char> {
    match current {
        Some(s) => "Current save: "@ + s,
        None => "No current save selected."@,
    }
}

/// The view of an optional string.
pub open spec fn opt_view(o: Option<String>) -> Option<Seq<char>> {
    match o {
        Some(s) => Some(s@),
        None => None,
    }
}

/// The details of a listed save: its difficulty and creation stamp, those
/// that are known.
pub open spec fn save_details(e: SaveListEntry) -> Seq<Seq<char>> {
    let d = match e.difficulty {
        Some(x) => seq!["Difficulty: "@ + x@],
        None => Seq::empty(),
    };
    match e.created_at {
        Some(c) => d.push(c@),
        None => d,
    }
}

/// The line of one listed save.
pub open spec fn save_entry_line(e: SaveListEntry) -> Seq<char> {
    if save_details(e).len() == 0 {
        "  "@ + e.folder_name@
    } else {
        "  "@ + e.folder_name@ + " - "@ + join_spec(save_details(e), " | "@)
    }
}

/// The lines of `save.list`.
pub open spec fn save_list_lines(entries: Seq<SaveListEntry>) -> Seq<Seq<char>> {
    if entries.len() == 0 {
        seq!["No saves found."@]
    } else {
        seq!["Saves:"@] + entries.map_values(|e: SaveListEntry| save_entry_line(e))
    }
}

/// The lines of `save.inspect`.
pub open spec fn inspection_lines(s: SaveInspection) -> Seq<Seq<char>> {
    let head = seq!["Save: "@ + s.save_name@, "Folder: "@ + s.folder_name@];
    let with_difficulty = match s.difficulty {
        Some(d) => head.push("Difficulty: "@ + d@),
        None => head,
    };
    with_difficulty + seq![
        "Current floor: "@ + decimal(s.current_floor as nat),
        "Level: "@ + decimal(s.level as nat),
        "Coins: "@ + signed_decimal(s.coins as int),
    ]
}

/// The view of a skill entry.
pub open spec fn skill_view(e: (String, i8)) -> (Seq<char>, i8) {
    (e.0@, e.1)
}

/// The lines of `skills.list`.
pub open spec fn skills_lines(skills: Seq<(Seq<char>, i8)>) -> Seq<Seq<char>> {
    if skills.len() == 0 {
        seq!["No owned skills found."@]
    } else {
        seq!["Owned skills:"@] + skills.map_values(
            |e: (Seq<char>, i8)| "  "@ + e.0 + " - level "@ + signed_decimal(e.1 as int),
        )
    }
}

/// The line `<key> = <value>`.
pub open spec fn setting_line(key: Seq<char>, value: Seq<char>) -> Seq<char> {
    key + " = "@ + value
}

/// The lines of `settings.get` without a key.
pub open spec fn settings_lines(values: Seq<(Seq<char>, Seq<char>)>) -> Seq<Seq<char>> {
    seq!["Settings:"@] + values.map_values(|e: (Seq<char>, Seq<char>)| setting_line(e.0, e.1))
}

/// The outcome of a command for given arguments, as far as the command's own
/// rules decide it: `Some` when the arguments alone fix it (usage errors,
/// `help`, `echo`), `None` when it rests on what the game answers.
pub open spec fn fixed_outcome(
    cs: Seq<ConsoleCommand>,
    action: CommandAction,
    args: Seq<Seq<char>>,
) -> Option<Result<Seq<Seq<char>>, Seq<char>>> {
    match action {
        CommandAction::Help => if args.len() == 0 {
            Some(Ok(help_overview(cs)))
        } else if args.len() == 1 {
            Some(command_help_result(cs, args[0]))
        } else {
            Some(Err("Usage: help [command]"@))
        },
        CommandAction::Clear => if args.len() > 0 {
            Some(Err("Usage: clear"@))
        } else {
            None
        },
        CommandAction::Echo => if args.len() == 0 {
            Some(Err("Usage: echo <message>"@))
        } else {
            Some(Ok(seq![join_spec(args, " "@)]))
        },
        CommandAction::Invoke => if args.len() == 0 {
            Some(Err("Usage: invoke <ui>"@))
        } else {
            None
        },
        CommandAction::UiList => if args.len() > 0 {
            Some(Err("Usage: ui.list"@))
        } else {
            None
        },
        CommandAction::SaveCurrent => if args.len() > 0 {
            Some(Err("Usage: save.current"@))
        } else {
            None
        },
        CommandAction::SaveList => if args.len() > 0 {
            Some(Err("Usage: save.list"@))
        } else {
            None
        },
        CommandAction::SaveInspect => if args.len() > 1 {
            Some(Err("Usage: save.inspect [name]"@))
        } else {
            None
        },
        CommandAction::SkillsList => if args.len() > 0 {
            Some(Err("Usage: skills.list"@))
        } else {
            None
        },
        CommandAction::SettingsGet => if args.len() > 1 {
            Some(Err("Usage: settings.get [key]"@))
        } else {
            None
        },
        CommandAction::SettingsSet => if args.len() != 2 {
            Some(Err("Usage: settings.set <key> <value>"@))
        } else {
            None
        },
        CommandAction::GridRegen => if args.len() > 0 {
            Some(Err("Usage: grid.regen"@))
        } else {
            None
        },
        CommandAction::GridResetView => if args.len() > 0 {
            Some(Err("Usage: grid.reset_view"@))
        } else {
            None
        },
    }
}

/// A successful outcome with the given lines.
pub open spec fn ok_lines(lines: Seq<Seq<char>>) -> Result<Seq<Seq<char>>, Seq<char>> {
    Ok(lines)
}

/// What a command asks of the game, when its arguments leave the outcome to
/// the game's answer.
#[derive(Clone, Debug, PartialEq, Eq)]
pub enum GameRequest {
    /// Clear the console's output.
    ClearConsole,
    /// Open the preview window of this name.
    OpenPreview { name: String },
    /// Name the previews that can be opened.
    ListPreviews,
    /// Name the current save.
    CurrentSave,
    /// Read the save folders with their `save.json` texts.
    ListSaveFolders,
    /// Read the save of this name, or the current save.
    LoadSave { requested: Option<String> },
    /// Read the current save's owned skills.
    ReadOwnedSkills,
    /// Give the value of this setting.
    GetSetting { key: String },
    /// Give every setting with its value.
    ListSettings,
    /// Set this setting to this value.
    SetSetting { key: String, value: String },
    /// Regenerate the grid preview.
    RegenerateGrid,
    /// Reset the grid preview's zoom and pan.
    ResetGridView,
}

/// What the game answers to a request.
#[derive(Debug, PartialEq, Eq)]
pub enum GameReply {
    Cleared,
    Opened(Result<(), String>),
    Previews(Vec<String>),
    Current(Option<String>),
    SaveFolders(Result<Vec<(String, Option<String>)>, String>),
    Save(Result<SaveFiles, String>),
    Skills(Result<Vec<(String, i8)>, String>),
    Value(Result<String, String>),
    Values(Vec<(String, String)>),
    Message(Result<String, String>),
}

/// What a command step comes to: the lines to show, or a request the game
/// has to answer first.
#[derive(Debug, PartialEq, Eq)]
pub enum CommandStep {
    Done(Vec<String>),
    Ask(GameRequest),
}

/// Whether `req` is what the command `action` asks of the game for the
/// arguments `args`: the arguments joined by spaces for `invoke`, the named
/// save (or none) for `save.inspect`, the key for `settings.get <key>`, the
/// key and value for `settings.set`, and the fixed request of every other
/// command.
pub open spec fn requested(action: CommandAction, args: Seq<Seq<char>>, req: GameRequest) -> bool {
    match action {
        CommandAction::Clear => req is ClearConsole,
        CommandAction::Invoke => req matches GameRequest::OpenPreview { name } && name@ == join_spec(
            args,
            " "@,
        ),
        CommandAction::UiList => req is ListPreviews,
        CommandAction::SaveCurrent => req is CurrentSave,
        CommandAction::SaveList => req is ListSaveFolders,
        CommandAction::SaveInspect => req matches GameRequest::LoadSave { requested } && opt_view(
            requested,
        ) == (if args.len() == 1 {
            Some(args[0])
        } else {
            None::<Seq<char>>
        }),
        CommandAction::SkillsList => req is ReadOwnedSkills,
        CommandAction::SettingsGet => if args.len() == 0 {
            req is ListSettings
        } else {
            req matches GameRequest::GetSetting { key } && key@ == args[0]
        },
        CommandAction::SettingsSet => req matches GameRequest::SetSetting { key, value } && key@
            == args[0] && value@ == args[1],
        CommandAction::GridRegen => req is RegenerateGrid,
        CommandAction::GridResetView => req is ResetGridView,
        _ => false,
    }
}

/// Whether the reply is of the kind the request asks for.
pub open spec fn reply_fits(req: GameRequest, reply: GameReply) -> bool {
    match req {
        GameRequest::ClearConsole => reply is Cleared,
        GameRequest::OpenPreview { .. } => reply is Opened,
        GameRequest::ListPreviews => reply is Previews,
        GameRequest::CurrentSave => reply is Current,
        GameRequest::ListSaveFolders => reply is SaveFolders,
        GameRequest::LoadSave { .. } => reply is Save,
        GameRequest::ReadOwnedSkills => reply is Skills,
        GameRequest::GetSetting { .. } => reply is Value,
        GameRequest::ListSettings => reply is Values,
        GameRequest::SetSetting { .. } => reply is Message,
        GameRequest::RegenerateGrid => reply is Message,
        GameRequest::ResetGridView => reply is Message,
    }
}

/// Whether `res` is a command's outcome once the game has given `reply` to
/// `req`: the game's error as it is, or the lines the command builds from
/// the answer.
pub open spec fn answered(req: GameRequest, reply: GameReply, res: Result<Seq<Seq<char>>, Seq<char>>) -> bool {
    match (req, reply) {
        (GameRequest::ClearConsole, GameReply::Cleared) => res == ok_lines(Seq::empty()),
        (GameRequest::OpenPreview { name }, GameReply::Opened(a)) => match a {
            Err(e) => res == err_text(e),
            Ok(_) => res == ok_lines(seq!["Invoked UI preview: "@ + name@]),
        },
        (GameRequest::ListPreviews, GameReply::Previews(p)) => res == ok_lines(preview_list_lines(views(p@))),
        (GameRequest::CurrentSave, GameReply::Current(c)) => res == ok_lines(seq![current_save_line(opt_view(c))]),
        (GameRequest::ListSaveFolders, GameReply::SaveFolders(a)) => match a {
            Err(e) => res == err_text(e),
            Ok(fs) => exists|es: Seq<SaveListEntry>|
                lists_folders(fs@, es) && res == ok_lines(save_list_lines(es)),
        },
        (GameRequest::LoadSave { .. }, GameReply::Save(a)) => match a {
            Err(e) => res == err_text(e),
            Ok(files) => exists|i: SaveInspection| inspects(i, files) && res == ok_lines(inspection_lines(i)),
        },
        (GameRequest::ReadOwnedSkills, GameReply::Skills(a)) => match a {
            Err(e) => res == err_text(e),
            Ok(sk) => res == ok_lines(skills_lines(sk@.map_values(|e: (String, i8)| skill_view(e)))),
        },
        (GameRequest::GetSetting { key }, GameReply::Value(a)) => match a {
            Err(e) => res == err_text(e),
            Ok(v) => res == ok_lines(seq![setting_line(key@, v@)]),
        },
        (GameRequest::ListSettings, GameReply::Values(vs)) => res == ok_lines(
            settings_lines(vs@.map_values(|e: (String, String)| pair_view(e))),
        ),
        (GameRequest::SetSetting { .. }, GameReply::Message(a)) => match a {
            Err(e) => res == err_text(e),
            Ok(m) => res == ok_lines(seq![m@]),
        },
        (GameRequest::RegenerateGrid, GameReply::Message(a)) => match a {
            Err(e) => res == err_text(e),
            Ok(m) => res == ok_lines(seq![m@]),
        },
        (GameRequest::ResetGridView, GameReply::Message(a)) => match a {
            Err(e) => res == err_text(e),
            Ok(m) => res == ok_lines(seq![m@]),
        },
        _ => false,
    }
}

/// Whether `step` is what the command line comes to before the game is
/// asked anything: nothing for a blank line; the unknown-command lines; the
/// command's fixed outcome; or the request the command makes.
pub open spec fn planned(cs: Seq<ConsoleCommand>, line: Seq<char>, step: CommandStep) -> bool {
    match parse_command_spec(line) {
        None => step matches CommandStep::Done(v) && v@.len() == 0,
        Some((raw, name, args)) => match find_index(cs, name) {
            None => step matches CommandStep::Done(v) && views(v@) == seq![
                "Error: Unknown command: "@ + name,
                "Type 'help' for a list of commands."@,
            ],
            Some(i) => match fixed_outcome(cs, cs[i].action, args) {
                Some(fixed) => step matches CommandStep::Done(v) && views(v@) == outcome_lines(fixed),
                None => step matches CommandStep::Ask(req) && requested(cs[i].action, args, req),
            },
        },
    }
}

/// The lines shown for a command line once the game, where asked, has
/// answered: those of the step when it needs no answer; otherwise the
/// outcome of an answer of the right kind to the request made from the
/// parsed arguments.
pub open spec fn shows(cs: Seq<ConsoleCommand>, line: Seq<char>, lines: Seq<Seq<char>>) -> bool {
    exists|step: CommandStep| #[trigger] planned(cs, line, step) && match step {
        CommandStep::Done(v) => lines == views(v@),
        CommandStep::Ask(req) => exists|reply: GameReply, res: Result<Seq<Seq<char>>, Seq<char>>|
            reply_fits(req, reply) && answered(req, reply, res) && lines == outcome_lines(res),
    }
}

/// The name, aliases, usage, description, developer flag and action of a
/// command.
pub open spec fn command_view(c: ConsoleCommand) -> (
    Seq<char>,
    Seq<Seq<char>>,
    Seq<char>,
    Seq<char>,
    bool,
    CommandAction,
) {
    (c.name@, alias_views(c), c.usage@, c.description@, c.dev_only, c.action)
}

/// The commands every console registry starts with, in help order.
pub open spec fn standard_commands() -> Seq<
    (Seq<char>, Seq<Seq<char>>, Seq<char>, Seq<char>, bool, CommandAction),
> {
    seq![
        (
            "help"@,
            seq!["commands"@],
            "help [command]"@,
            "show all commands or detailed help for one command"@,
            true,
            CommandAction::Help,
        ),
        (
            "clear"@,
            seq![],
            "clear"@,
            "clear the console output"@,
            true,
            CommandAction::Clear,
        ),
        (
            "echo"@,
            seq!["log"@],
            "echo <message>"@,
            "write a message to the console"@,
            true,
            CommandAction::Echo,
        ),
        (
            "invoke"@,
            seq![],
            "invoke <ui>"@,
            "open a preview window for a known UI"@,
            true,
            CommandAction::Invoke,
        ),
        (
            "ui.list"@,
            seq![],
            "ui.list"@,
            "list known preview UIs"@,
            true,
            CommandAction::UiList,
        ),
        (
            "save.current"@,
            seq![],
            "save.current"@,
            "show the currently selected save"@,
            true,
            CommandAction::SaveCurrent,
        ),
        (
            "save.list"@,
            seq![],
            "save.list"@,
            "list saves with summary metadata"@,
            true,
            CommandAction::SaveList,
        ),
        (
            "save.inspect"@,
            seq![],
            "save.inspect [name]"@,
            "show a compact summary for a save"@,
            true,
            CommandAction::SaveInspect,
        ),
        (
            "skills.list"@,
            seq![],
            "skills.list"@,
            "list owned skills for the current save"@,
            true,
            CommandAction::SkillsList,
        ),
        (
            "settings.get"@,
            seq![],
            "settings.get [key]"@,
            "show console-related settings"@,
            true,
            CommandAction::SettingsGet,
        ),
        (
            "settings.set"@,
            seq![],
            "settings.set <key> <value>"@,
            "change a whitelisted console setting"@,
            true,
            CommandAction::SettingsSet,
        ),
        (
            "grid.regen"@,
            seq![],
            "grid.regen"@,
            "regenerate the open grid preview"@,
            true,
            CommandAction::GridRegen,
        ),
        (
            "grid.reset_view"@,
            seq![],
            "grid.reset_view"@,
            "reset zoom and pan on the open grid preview"@,
            true,
            CommandAction::GridResetView,
        ),
    ]
}

/// The view of a command outcome.
pub open spec fn result_view(r: Result<Vec<String>, String>) -> Result<Seq<Seq<char>>, Seq<char>> {
    match r {
        Ok(lines) => Ok(views(lines@)),
        Err(e) => Err(e@),
    }
}

/// Whether `i` is the summary `save.inspect` makes of what the game read.
pub open spec fn inspects(i: SaveInspection, files: SaveFiles) -> bool {
    &&& i.folder_name@ == files.folder_name@
    &&& i.save_name@ == crate::saves::inspected_name_spec(files.save_json@, files.folder_name@)
    &&& opt_view(i.difficulty) == crate::json::json_string_at(files.save_json@, "difficulty"@)
    &&& i.current_floor == files.current_floor
    &&& i.level == files.level
    &&& i.coins == files.coins
}

/// An error outcome carrying the game's error text.
pub open spec fn err_text(e: String) -> Result<Seq<Seq<char>>, Seq<char>> {
    Err(e@)
}

/// The name `invoke` asks the game to open: its arguments joined by spaces.
pub fn invoke_request(args: &Vec<String>) -> (r: String)
    ensures
        r@ == join_spec(views(args@), " "@),
{
    join_texts(args, " ")
}

/// What `invoke` answers once the game has tried to open the preview
/// `name`: the game's error as it is, or the line naming the preview.
pub fn invoke_outcome(name: &str, answer: Result<(), String>) -> (r: Result<Vec<String>, String>)
    ensures
        match answer {
            Err(e) => result_view(r) == err_text(e),
            Ok(_) => result_view(r) == ok_lines(seq!["Invoked UI preview: "@ + name@]),
        },
{
    match answer {
        Err(e) => Err(e),
        Ok(()) => {
            let r = vec![cat2("Invoked UI preview: ", name)];
            assert(views(r@) =~= seq!["Invoked UI preview: "@ + name@]);
            Ok(r)
        },
    }
}

/// What a command that shows the game's message answers (`settings.set`,
/// `grid.regen`, `grid.reset_view`): the game's error as it is, or its
/// message as the one line.
pub fn message_outcome(answer: Result<String, String>) -> (r: Result<Vec<String>, String>)
    ensures
        match answer {
            Err(e) => result_view(r) == err_text(e),
            Ok(m) => result_view(r) == ok_lines(seq![m@]),
        },
{
    match answer {
        Err(e) => Err(e),
        Ok(m) => {
            let r = vec![m];
            assert(views(r@) =~= seq![r@[0]@]);
            Ok(r)
        },
    }
}

/// What `settings.get <key>` answers once the game has looked the key up:
/// the game's error as it is, or the line `<key> = <value>`.
pub fn setting_value_outcome(key: &str, answer: Result<String, String>) -> (r: Result<Vec<String>, String>)
    ensures
        match answer {
            Err(e) => result_view(r) == err_text(e),
            Ok(v) => result_view(r) == ok_lines(seq![setting_line(key@, v@)]),
        },
{
    match answer {
        Err(e) => Err(e),
        Ok(v) => {
            let r = vec![cat3(key, " = ", v.as_str())];
            assert(views(r@) =~= seq![setting_line(key@, v@)]);
            Ok(r)
        },
    }
}

/// What `skills.list` answers once the game has read the owned skills: the
/// game's error as it is, or the skills' listing.
pub fn skills_outcome(answer: Result<Vec<(String, i8)>, String>) -> (r: Result<Vec<String>, String>)
    ensures
        match answer {
            Err(e) => result_view(r) == err_text(e),
            Ok(sk) => result_view(r) == ok_lines(skills_lines(sk@.map_values(|e: (String, i8)| skill_view(e)))),
        },
{
    match answer {
        Err(e) => Err(e),
        Ok(sk) => {
            let r = skills_listing(&sk);
            Ok(r)
        },
    }
}

/// What `save.list` answers once the game has read the save folders: the
/// game's error as it is, or the listing of the folders' entries sorted by
/// folder name.
pub fn save_list_outcome(answer: Result<Vec<(String, Option<String>)>, String>) -> (r: Result<Vec<String>, String>)
    ensures
        match answer {
            Err(e) => result_view(r) == err_text(e),
            Ok(fs) => exists|es: Seq<SaveListEntry>|
                lists_folders(fs@, es) && result_view(r) == ok_lines(save_list_lines(es)),
        },
{
    match answer {
        Err(e) => Err(e),
        Ok(fs) => {
            let entries = save_list_from_folders(&fs);
            let r = save_listing(&entries);
            assert(lists_folders(fs@, entries@) && result_view(Ok(r)) == ok_lines(save_list_lines(entries@)));
            Ok(r)
        },
    }
}

/// What `save.inspect` answers once the game has read the save: the game's
/// error as it is, or the summary of what it read.
pub fn inspection_outcome(answer: Result<SaveFiles, String>) -> (r: Result<Vec<String>, String>)
    ensures
        match answer {
            Err(e) => result_view(r) == err_text(e),
            Ok(files) => exists|i: SaveInspection|
                inspects(i, files) && result_view(r) == ok_lines(inspection_lines(i)),
        },
{
    match answer {
        Err(e) => Err(e),
        Ok(files) => {
            let ghost f = files;
            let inspection = inspection_from_files(files);
            let r = inspection_listing(&inspection);
            assert(inspects(inspection, f) && result_view(Ok(r)) == ok_lines(inspection_lines(inspection)));
            Ok(r)
        },
    }
}

proof fn lemma_map_take_push<A, B>(s: Seq<A>, f: spec_fn(A) -> B, i: int)
    requires
        0 <= i < s.len(),
    ensures
        s.take(i + 1).map_values(f) == s.take(i).map_values(f).push(f(s[i])),
{
    assert(s.take(i + 1).map_values(f) =~= s.take(i).map_values(f).push(f(s[i])));
}

proof fn lemma_views_push(v: Seq<String>, x: String)
    ensures
        views(v.push(x)) == views(v).push(x@),
{
    assert(views(v.push(x)) =~= views(v).push(x@));
}

proof fn lemma_find_prefix(cs: Seq<ConsoleCommand>, name: Seq<char>, k: int)
    requires
        0 <= k <= cs.len(),
        find_index(cs.take(k), name) is Some,
    ensures
        find_index(cs, name) == find_index(cs.take(k), name),
    decreases cs.len() - k,
{
    if k == cs.len() {
        assert(cs.take(k) =~= cs);
    } else {
        assert(cs.drop_last().take(k) =~= cs.take(k));
        lemma_find_prefix(cs.drop_last(), name, k);
    }
}

/// `a` followed by `b`.
fn cat2(a: &str, b: &str) -> (r: String)
    ensures
        r@ == a@ + b@,
{
    let mut r = owned(a);
    push_text(&mut r, b);
    r
}

/// `a`, `b`, `c` in a row.
fn cat3(a: &str, b: &str, c: &str) -> (r: String)
    ensures
        r@ == a@ + b@ + c@,
{
    let mut r = cat2(a, b);
    push_text(&mut r, c);
    r
}

/// `a`, `b`, `c`, `d` in a row.
fn cat4(a: &str, b: &str, c: &str, d: &str) -> (r: String)
    ensures
        r@ == a@ + b@ + c@ + d@,
{
    let mut r = cat3(a, b, c);
    push_text(&mut r, d);
    r
}

/// The lines shown for a failed command.
pub fn error_listing(error: String) -> (r: Vec<String>)
    ensures
        views(r@) == error_lines(error@),
{
    let v = chars_of(error.as_str());
    let r = if starts_with(&v, "Usage:") || starts_with(&v, "Error:") {
        vec![error]
    } else {
        vec![cat2("Error: ", error.as_str())]
    };
    assert(views(r@) =~= error_lines(error@));
    r
}

/// The lines of `ui.list` for the given previews.
pub fn preview_listing(previews: &Vec<String>) -> (r: Vec<String>)
    ensures
        views(r@) == preview_list_lines(views(previews@)),
{
    let mut lines = vec![owned("Known preview UIs:")];
    let mut i: usize = 0;
    while i < previews.len()
        invariant
            i <= previews.len(),
            views(lines@) == preview_list_lines(views(previews@).take(i as int)),
        decreases previews.len() - i,
    {
        let ghost prev = lines@;
        let item = cat2("  ", previews[i].as_str());
        lines.push(item);
        proof {
            lemma_views_push(prev, item);
            lemma_map_take_push(views(previews@), |p: Seq<char>| "  "@ + p, i as int);
            assert(views(previews@).take(i + 1) =~= views(previews@).take(i as int).push(previews@[i as int]@));
            lemma_map_take_push(previews@, |s: String| s@, i as int);
        }
        i += 1;
        assert(views(lines@) =~= preview_list_lines(views(previews@).take(i as int)));
    }
    assert(views(previews@).take(previews.len() as int) =~= views(previews@));
    lines
}

/// The line of one listed save.
pub fn save_entry_listing(e: &SaveListEntry) -> (r: String)
    ensures
        r@ == save_entry_line(*e),
{
    let mut details: Vec<String> = Vec::new();
    match &e.difficulty {
        Some(d) => details.push(cat2("Difficulty: ", d.as_str())),
        None => {},
    }
    match &e.created_at {
        Some(c) => details.push(c.clone()),
        None => {},
    }
    assert(views(details@) =~= save_details(*e));
    if details.len() == 0 {
        cat2("  ", e.folder_name.as_str())
    } else {
        let joined = join_texts(&details, " | ");
        cat4("  ", e.folder_name.as_str(), " - ", joined.as_str())
    }
}

/// The lines of `save.list` for the given saves.
pub fn save_listing(entries: &Vec<SaveListEntry>) -> (r: Vec<String>)
    ensures
        views(r@) == save_list_lines(entries@),
{
    if entries.len() == 0 {
        let r = vec![owned("No saves found.")];
        assert(views(r@) =~= save_list_lines(entries@));
        return r;
    }
    let mut lines = vec![owned("Saves:")];
    let mut i: usize = 0;
    while i < entries.len()
        invariant
            i <= entries.len(),
            entries.len() > 0,
            views(lines@) == seq!["Saves:"@] + entries@.take(i as int).map_values(
                |e: SaveListEntry| save_entry_line(e),
            ),
        decreases entries.len() - i,
    {
        let ghost prev = lines@;
        let item = save_entry_listing(&entries[i]);
        lines.push(item);
        proof {
            lemma_views_push(prev, item);
            lemma_map_take_push(entries@, |e: SaveListEntry| save_entry_line(e), i as int);
        }
        i += 1;
        assert(views(lines@) =~= seq!["Saves:"@] + entries@.take(i as int).map_values(
            |e: SaveListEntry| save_entry_line(e),
        ));
    }
    assert(entries@.take(entries.len() as int) =~= entries@);
    lines
}

/// The lines of `save.inspect` for a save.
pub fn inspection_listing(s: &SaveInspection) -> (r: Vec<String>)
    ensures
        views(r@) == inspection_lines(*s),
{
    let mut lines = vec![cat2("Save: ", s.save_name.as_str()), cat2("Folder: ", s.folder_name.as_str())];
    match &s.difficulty {
        Some(d) => lines.push(cat2("Difficulty: ", d.as_str())),
        None => {},
    }
    let floor = unsigned_text(s.current_floor as u64);
    lines.push(cat2("Current floor: ", floor.as_str()));
    let level = unsigned_text(s.level as u64);
    lines.push(cat2("Level: ", level.as_str()));
    let coins = signed_text(s.coins as i64);
    lines.push(cat2("Coins: ", coins.as_str()));
    assert(views(lines@) =~= inspection_lines(*s));
    lines
}

/// The lines of `skills.list` for the given skills and levels.
pub fn skills_listing(skills: &Vec<(String, i8)>) -> (r: Vec<String>)
    ensures
        views(r@) == skills_lines(skills@.map_values(|e: (String, i8)| skill_view(e))),
{
    let ghost sv = skills@.map_values(|e: (String, i8)| skill_view(e));
    if skills.len() == 0 {
        let r = vec![owned("No owned skills found.")];
        assert(views(r@) =~= skills_lines(sv));
        return r;
    }
    let mut lines = vec![owned("Owned skills:")];
    let mut i: usize = 0;
    while i < skills.len()
        invariant
            i <= skills.len(),
            skills.len() > 0,
            sv == skills@.map_values(|e: (String, i8)| skill_view(e)),
            views(lines@) == seq!["Owned skills:"@] + sv.take(i as int).map_values(
                |e: (Seq<char>, i8)| "  "@ + e.0 + " - level "@ + signed_decimal(e.1 as int),
            ),
        decreases skills.len() - i,
    {
        let level = signed_text(skills[i].1 as i64);
        let ghost prev = lines@;
        let item = cat4("  ", skills[i].0.as_str(), " - level ", level.as_str());
        lines.push(item);
        proof {
            lemma_views_push(prev, item);
            lemma_map_take_push(
                sv,
                |e: (Seq<char>, i8)| "  "@ + e.0 + " - level "@ + signed_decimal(e.1 as int),
                i as int,
            );
            assert(sv[i as int] == skill_view(skills@[i as int]));
        }
        i += 1;
        assert(views(lines@) =~= seq!["Owned skills:"@] + sv.take(i as int).map_values(
            |e: (Seq<char>, i8)| "  "@ + e.0 + " - level "@ + signed_decimal(e.1 as int),
        ));
    }
    assert(sv.take(skills.len() as int) =~= sv);
    lines
}

/// The view of a setting entry.
pub open spec fn pair_view(e: (String, String)) -> (Seq<char>, Seq<char>) {
    (e.0@, e.1@)
}

/// The lines of `settings.get` for the given keys and values.
pub fn settings_listing(values: &Vec<(String, String)>) -> (r: Vec<String>)
    ensures
        views(r@) == settings_lines(values@.map_values(|e: (String, String)| pair_view(e))),
{
    let ghost pv = values@.map_values(|e: (String, String)| pair_view(e));
    let mut lines = vec![owned("Settings:")];
    let mut i: usize = 0;
    while i < values.len()
        invariant
            i <= values.len(),
            pv == values@.map_values(|e: (String, String)| pair_view(e)),
            views(lines@) == settings_lines(pv.take(i as int)),
        decreases values.len() - i,
    {
        let ghost prev = lines@;
        let item = cat3(values[i].0.as_str(), " = ", values[i].1.as_str());
        lines.push(item);
        proof {
            lemma_views_push(prev, item);
            lemma_map_take_push(pv, |e: (Seq<char>, Seq<char>)| setting_line(e.0, e.1), i as int);
            assert(pv[i as int] == pair_view(values@[i as int]));
        }
        i += 1;
        assert(views(lines@) =~= settings_lines(pv.take(i as int)));
    }
    assert(pv.take(values.len() as int) =~= pv);
    lines
}

/// Whether a command answers to a name.
fn command_answers(c: &ConsoleCommand, name: &str) -> (r: bool)
    ensures
        r == answers_to(*c, name@),
{
    if eq_ignore_ascii_case(c.name, name) {
        return true;
    }
    let mut j: usize = 0;
    while j < c.aliases.len()
        invariant
            j <= c.aliases@.len(),
            forall|m: int| 0 <= m < j ==> !eq_ignore_ascii_case_spec(#[trigger] c.aliases@[m]@, name@),
        decreases c.aliases@.len() - j,
    {
        if eq_ignore_ascii_case(c.aliases[j], name) {
            return true;
        }
        j += 1;
    }
    false
}

impl ConsoleRegistry {
    /// The registered commands, in help order.
    pub closed spec fn command_seq(&self) -> Seq<ConsoleCommand> {
        self.commands@
    }

    /// The registry with the standard commands.
    pub fn new() -> (r: Self)
        ensures
            r.command_seq().map_values(|c: ConsoleCommand| command_view(c)) == standard_commands(),
    {
        let commands = vec![
            ConsoleCommand {
                name: "help",
                aliases: &["commands"],
                usage: "help [command]",
                description: "show all commands or detailed help for one command",
                dev_only: true,
                action: CommandAction::Help,
            },
            ConsoleCommand {
                name: "clear",
                aliases: &[],
                usage: "clear",
                description: "clear the console output",
                dev_only: true,
                action: CommandAction::Clear,
            },
            ConsoleCommand {
                name: "echo",
                aliases: &["log"],
                usage: "echo <message>",
                description: "write a message to the console",
                dev_only: true,
                action: CommandAction::Echo,
            },
            ConsoleCommand {
                name: "invoke",
                aliases: &[],
                usage: "invoke <ui>",
                description: "open a preview window for a known UI",
                dev_only: true,
                action: CommandAction::Invoke,
            },
            ConsoleCommand {
                name: "ui.list",
                aliases: &[],
                usage: "ui.list",
                description: "list known preview UIs",
                dev_only: true,
                action: CommandAction::UiList,
            },
            ConsoleCommand {
                name: "save.current",
                aliases: &[],
                usage: "save.current",
                description: "show the currently selected save",
                dev_only: true,
                action: CommandAction::SaveCurrent,
            },
            ConsoleCommand {
                name: "save.list",
                aliases: &[],
                usage: "save.list",
                description: "list saves with summary metadata",
                dev_only: true,
                action: CommandAction::SaveList,
            },
            ConsoleCommand {
                name: "save.inspect",
                aliases: &[],
                usage: "save.inspect [name]",
                description: "show a compact summary for a save",
                dev_only: true,
                action: CommandAction::SaveInspect,
            },
            ConsoleCommand {
                name: "skills.list",
                aliases: &[],
                usage: "skills.list",
                description: "list owned skills for the current save",
                dev_only: true,
                action: CommandAction::SkillsList,
            },
            ConsoleCommand {
                name: "settings.get",
                aliases: &[],
                usage: "settings.get [key]",
                description: "show console-related settings",
                dev_only: true,
                action: CommandAction::SettingsGet,
            },
            ConsoleCommand {
                name: "settings.set",
                aliases: &[],
                usage: "settings.set <key> <value>",
                description: "change a whitelisted console setting",
                dev_only: true,
                action: CommandAction::SettingsSet,
            },
            ConsoleCommand {
                name: "grid.regen",
                aliases: &[],
                usage: "grid.regen",
                description: "regenerate the open grid preview",
                dev_only: true,
                action: CommandAction::GridRegen,
            },
            ConsoleCommand {
                name: "grid.reset_view",
                aliases: &[],
                usage: "grid.reset_view",
                description: "reset zoom and pan on the open grid preview",
                dev_only: true,
                action: CommandAction::GridResetView,
            },
        ];
        let r = ConsoleRegistry { commands };
        proof {
            let cs = r.command_seq();
            assert(alias_views(cs[0]) =~= seq!["commands"@]);
            assert(alias_views(cs[2]) =~= seq!["log"@]);
            assert forall|k: int| 0 <= k < 13 && k != 0 && k != 2 implies alias_views(#[trigger] cs[k])
                =~= Seq::<Seq<char>>::empty() by {}
            assert forall|k: int| 0 <= k < 13 implies command_view(#[trigger] cs[k])
                == standard_commands()[k] by {}
        }
        assert(r.command_seq().map_values(|c: ConsoleCommand| command_view(c)) =~= standard_commands());
        r
    }

    /// The registered commands, in help order.
    pub fn commands(&self) -> (r: &[ConsoleCommand])
        ensures
            r@ == self.command_seq(),
    {
        self.commands.as_slice()
    }

    fn find_command(&self, name: &str) -> (r: Option<&ConsoleCommand>)
        ensures
            match find_index(self.command_seq(), name@) {
                Some(i) => r == Some(&self.command_seq()[i]),
                None => r is None,
            },
    {
        let ghost cs = self.commands@;
        let mut i: usize = 0;
        assert(cs.take(0) =~= Seq::<ConsoleCommand>::empty());
        while i < self.commands.len()
            invariant
                i <= cs.len(),
                cs == self.commands@,
                find_index(cs.take(i as int), name@) is None,
            decreases cs.len() - i,
        {
            assert(cs.take(i + 1).drop_last() =~= cs.take(i as int));
            if command_answers(&self.commands[i], name) {
                proof {
                    lemma_find_prefix(cs, name@, i + 1);
                }
                return Some(&self.commands[i]);
            }
            i += 1;
        }
        assert(cs.take(cs.len() as int) =~= cs);
        None
    }

    /// The help overview: a heading, then one line per command.
    pub fn render_help_overview(&self) -> (r: Vec<String>)
        ensures
            views(r@) == help_overview(self.command_seq()),
    {
        let ghost cs = self.commands@;
        let mut lines = vec![owned("Available commands:")];
        let mut i: usize = 0;
        while i < self.commands.len()
            invariant
                i <= cs.len(),
                cs == self.commands@,
                views(lines@) == help_overview(cs.take(i as int)),
            decreases cs.len() - i,
        {
            let c = &self.commands[i];
            let ghost prev = lines@;
            let item = cat4("  ", c.usage, " - ", c.description);
            lines.push(item);
            proof {
                lemma_views_push(prev, item);
                lemma_map_take_push(cs, |c: ConsoleCommand| overview_line(c), i as int);
            }
            i += 1;
            assert(views(lines@) =~= help_overview(cs.take(i as int)));
        }
        assert(cs.take(cs.len() as int) =~= cs);
        lines
    }

    /// The detailed help of the command answering to a name, or the error for
    /// an unknown one.
    pub fn render_command_help(&self, command_name: &str) -> (r: Result<Vec<String>, String>)
        ensures
            result_view(r) == command_help_result(self.command_seq(), command_name@),
    {
        let command = match self.find_command(command_name) {
            Some(c) => c,
            None => {
                return Err(cat2("Unknown command: ", command_name));
            },
        };
        let mut lines = vec![
            cat2("Usage: ", command.usage),
            cat4("  ", command.name, " - ", command.description),
        ];
        if command.aliases.len() > 0 {
            let mut aliases: Vec<String> = Vec::new();
            let mut j: usize = 0;
            while j < command.aliases.len()
                invariant
                    j <= command.aliases@.len(),
                    views(aliases@) == alias_views(*command).take(j as int),
                decreases command.aliases@.len() - j,
            {
                let ghost prev = aliases@;
                let item = owned(command.aliases[j]);
                aliases.push(item);
                proof {
                    lemma_views_push(prev, item);
                    lemma_map_take_push(command.aliases@, |a: &str| a@, j as int);
                    assert(alias_views(*command).take(j as int) =~= command.aliases@.take(j as int).map_values(|a: &str| a@));
                    assert(alias_views(*command).take(j + 1) =~= command.aliases@.take(j + 1).map_values(|a: &str| a@));
                }
                j += 1;
                assert(views(aliases@) =~= alias_views(*command).take(j as int));
            }
            assert(alias_views(*command).take(command.aliases@.len() as int) =~= alias_views(*command));
            let joined = join_texts(&aliases, ", ");
            lines.push(cat2("Aliases: ", joined.as_str()));
        }
        if command.dev_only {
            lines.push(owned("Developer-only command."));
        }
        assert(views(lines@) =~= command_help(*command));
        Ok(lines)
    }

    /// What a command line comes to before the game is asked anything: the
    /// lines to show, or the request the command makes of the game.
    pub fn plan(&self, line: &str) -> (r: CommandStep)
        ensures
            planned(self.command_seq(), line@, r),
    {
        let parsed = match parse_command_line(line) {
            Some(p) => p,
            None => {
                return CommandStep::Done(Vec::new());
            },
        };
        let command = match self.find_command(parsed.name.as_str()) {
            Some(c) => c,
            None => {
                let r = vec![
                    cat2("Error: Unknown command: ", parsed.name.as_str()),
                    owned("Type 'help' for a list of commands."),
                ];
                assert(views(r@) =~= seq![
                    "Error: Unknown command: "@ + parsed.name@,
                    "Type 'help' for a list of commands."@,
                ]);
                return CommandStep::Done(r);
            },
        };
        self.plan_action(command.action, &parsed.args)
    }

    /// A command's step for its arguments.
    fn plan_action(&self, action: CommandAction, args: &Vec<String>) -> (r: CommandStep)
        ensures
            match fixed_outcome(self.command_seq(), action, views(args@)) {
                Some(fixed) => r matches CommandStep::Done(v) && views(v@) == outcome_lines(fixed),
                None => r matches CommandStep::Ask(req) && requested(action, views(args@), req),
            },
    {
        let ghost a = views(args@);
        let n = args.len();
        match action {
            CommandAction::Help => {
                if n == 0 {
                    CommandStep::Done(self.render_help_overview())
                } else if n == 1 {
                    match self.render_command_help(args[0].as_str()) {
                        Ok(lines) => CommandStep::Done(lines),
                        Err(e) => CommandStep::Done(error_listing(e)),
                    }
                } else {
                    CommandStep::Done(error_listing(owned("Usage: help [command]")))
                }
            },
            CommandAction::Clear => {
                if n > 0 {
                    CommandStep::Done(error_listing(owned("Usage: clear")))
                } else {
                    CommandStep::Ask(GameRequest::ClearConsole)
                }
            },
            CommandAction::Echo => {
                if n == 0 {
                    CommandStep::Done(error_listing(owned("Usage: echo <message>")))
                } else {
                    let r = vec![join_texts(args, " ")];
                    assert(views(r@) =~= seq![join_spec(a, " "@)]);
                    CommandStep::Done(r)
                }
            },
            CommandAction::Invoke => {
                if n == 0 {
                    CommandStep::Done(error_listing(owned("Usage: invoke <ui>")))
                } else {
                    CommandStep::Ask(GameRequest::OpenPreview { name: invoke_request(args) })
                }
            },
            CommandAction::UiList => {
                if n > 0 {
                    CommandStep::Done(error_listing(owned("Usage: ui.list")))
                } else {
                    CommandStep::Ask(GameRequest::ListPreviews)
                }
            },
            CommandAction::SaveCurrent => {
                if n > 0 {
                    CommandStep::Done(error_listing(owned("Usage: save.current")))
                } else {
                    CommandStep::Ask(GameRequest::CurrentSave)
                }
            },
            CommandAction::SaveList => {
                if n > 0 {
                    CommandStep::Done(error_listing(owned("Usage: save.list")))
                } else {
                    CommandStep::Ask(GameRequest::ListSaveFolders)
                }
            },
            CommandAction::SaveInspect => {
                if n > 1 {
                    CommandStep::Done(error_listing(owned("Usage: save.inspect [name]")))
                } else if n == 1 {
                    CommandStep::Ask(GameRequest::LoadSave { requested: Some(owned(args[0].as_str())) })
                } else {
                    CommandStep::Ask(GameRequest::LoadSave { requested: None })
                }
            },
            CommandAction::SkillsList => {
                if n > 0 {
                    CommandStep::Done(error_listing(owned("Usage: skills.list")))
                } else {
                    CommandStep::Ask(GameRequest::ReadOwnedSkills)
                }
            },
            CommandAction::SettingsGet => {
                if n == 0 {
                    CommandStep::Ask(GameRequest::ListSettings)
                } else if n == 1 {
                    CommandStep::Ask(GameRequest::GetSetting { key: owned(args[0].as_str()) })
                } else {
                    CommandStep::Done(error_listing(owned("Usage: settings.get [key]")))
                }
            },
            CommandAction::SettingsSet => {
                if n != 2 {
                    CommandStep::Done(error_listing(owned("Usage: settings.set <key> <value>")))
                } else {
                    CommandStep::Ask(
                        GameRequest::SetSetting {
                            key: owned(args[0].as_str()),
                            value: owned(args[1].as_str()),
                        },
                    )
                }
            },
            CommandAction::GridRegen => {
                if n > 0 {
                    CommandStep::Done(error_listing(owned("Usage: grid.regen")))
                } else {
                    CommandStep::Ask(GameRequest::RegenerateGrid)
                }
            },
            CommandAction::GridResetView => {
                if n > 0 {
                    CommandStep::Done(error_listing(owned("Usage: grid.reset_view")))
                } else {
                    CommandStep::Ask(GameRequest::ResetGridView)
                }
            },
        }
    }

    /// Runs one command line against the game and returns the lines to show:
    /// the request the command makes from its parsed arguments is put to the
    /// game, and its answer turned into lines.
    pub fn execute<C: ConsoleCommandContext>(&self, line: &str, context: &mut C) -> (r: Vec<String>)
        ensures
            shows(self.command_seq(), line@, views(r@)),
    {
        let step = self.plan(line);
        let ghost planned_step = step;
        match step {
            CommandStep::Done(lines) => lines,
            CommandStep::Ask(request) => {
                let reply = ask_game(context, &request);
                match finish(&request, reply) {
                    Some(lines) => {
                        assert(planned(self.command_seq(), line@, planned_step));
                        lines
                    },
                    None => Vec::new(),
                }
            },
        }
    }
}

/// Puts a request to the game through the method of its kind, handing the
/// request's own texts on, and gives the answer back as a reply of that
/// kind.
pub fn ask_game<C: ConsoleCommandContext>(context: &mut C, request: &GameRequest) -> (r: GameReply)
    ensures
        reply_fits(*request, r),
{
    match request {
        GameRequest::ClearConsole => {
            context.clear_console();
            GameReply::Cleared
        },
        GameRequest::OpenPreview { name } => GameReply::Opened(context.open_preview(name.as_str())),
        GameRequest::ListPreviews => GameReply::Previews(context.list_previews()),
        GameRequest::CurrentSave => GameReply::Current(context.current_save()),
        GameRequest::ListSaveFolders => GameReply::SaveFolders(context.list_save_folders()),
        GameRequest::LoadSave { requested } => match requested {
            Some(name) => GameReply::Save(context.load_save(Some(name.as_str()))),
            None => GameReply::Save(context.load_save(None)),
        },
        GameRequest::ReadOwnedSkills => GameReply::Skills(context.read_owned_skills()),
        GameRequest::GetSetting { key } => GameReply::Value(context.get_setting_value(key.as_str())),
        GameRequest::ListSettings => GameReply::Values(context.list_setting_values()),
        GameRequest::SetSetting { key, value } => GameReply::Message(
            context.set_setting_value(key.as_str(), value.as_str()),
        ),
        GameRequest::RegenerateGrid => GameReply::Message(context.regenerate_grid_preview()),
        GameRequest::ResetGridView => GameReply::Message(context.reset_grid_preview()),
    }
}

/// The lines shown once the game has answered a request: none when the
/// reply is not of the kind the request asks for; otherwise the game's
/// error, or the lines the command builds from the answer.
pub fn finish(request: &GameRequest, reply: GameReply) -> (r: Option<Vec<String>>)
    ensures
        r is Some <==> reply_fits(*request, reply),
        r matches Some(v) ==> exists|res: Result<Seq<Seq<char>>, Seq<char>>|
            answered(*request, reply, res) && views(v@) == outcome_lines(res),
{
    let ghost rp = reply;
    let outcome = match (request, reply) {
        (GameRequest::ClearConsole, GameReply::Cleared) => {
            let r: Vec<String> = Vec::new();
            assert(views(r@) =~= Seq::<Seq<char>>::empty());
            Ok(r)
        },
        (GameRequest::OpenPreview { name }, GameReply::Opened(a)) => invoke_outcome(name.as_str(), a),
        (GameRequest::ListPreviews, GameReply::Previews(p)) => Ok(preview_listing(&p)),
        (GameRequest::CurrentSave, GameReply::Current(c)) => {
            let line = match &c {
                Some(save) => cat2("Current save: ", save.as_str()),
                None => owned("No current save selected."),
            };
            let r = vec![line];
            assert(views(r@) =~= seq![current_save_line(opt_view(c))]);
            Ok(r)
        },
        (GameRequest::ListSaveFolders, GameReply::SaveFolders(a)) => save_list_outcome(a),
        (GameRequest::LoadSave { .. }, GameReply::Save(a)) => inspection_outcome(a),
        (GameRequest::ReadOwnedSkills, GameReply::Skills(a)) => skills_outcome(a),
        (GameRequest::GetSetting { key }, GameReply::Value(a)) => setting_value_outcome(key.as_str(), a),
        (GameRequest::ListSettings, GameReply::Values(vs)) => Ok(settings_listing(&vs)),
        (GameRequest::SetSetting { .. }, GameReply::Message(a)) => message_outcome(a),
        (GameRequest::RegenerateGrid, GameReply::Message(a)) => message_outcome(a),
        (GameRequest::ResetGridView, GameReply::Message(a)) => message_outcome(a),
        _ => {
            return None;
        },
    };
    let ghost res = result_view(outcome);
    assert(answered(*request, rp, res));
    let r = match outcome {
        Ok(lines) => lines,
        Err(error) => error_listing(error),
    };
    assert(answered(*request, rp, res) && views(r@) == outcome_lines(res));
    Some(r)
}

impl Default for ConsoleRegistry {
    fn default() -> (r: Self)
        ensures
            r.command_seq().map_values(|c: ConsoleCommand| command_view(c)) == standard_commands(),
    {
        Self::new()
    }
}

} // verus!
