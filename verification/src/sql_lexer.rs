//! Byte-level lexer that splits SQL text into the keywords and identifiers
//! that actually execute, grouped by top-level statement.
//!
//! Comments, quoted strings, quoted identifiers and PostgreSQL dollar-quoted
//! bodies contribute nothing, while the body of a MySQL executable comment
//! (`/*! ... */`) is lexed as if it stood in the text.
use vstd::prelude::*;

use crate::text::{to_upper_byte, upper_bytes};

verus! {

pub const TAB: u8 = 9;
pub const LINE_FEED: u8 = 10;
pub const FORM_FEED: u8 = 12;
pub const CARRIAGE_RETURN: u8 = 13;
pub const SPACE: u8 = 32;
pub const BANG: u8 = 33;
pub const DOUBLE_QUOTE: u8 = 34;
pub const DOLLAR: u8 = 36;
pub const SINGLE_QUOTE: u8 = 39;
pub const OPEN_PAREN: u8 = 40;
pub const CLOSE_PAREN: u8 = 41;
pub const STAR: u8 = 42;
pub const DASH: u8 = 45;
pub const SLASH: u8 = 47;
pub const SEMICOLON: u8 = 59;
pub const UNDERSCORE: u8 = 95;
pub const BACKTICK: u8 = 96;

/// A lexed token: its text in ASCII upper case and its parenthesis depth.
pub type SpecToken = (Seq<u8>, nat);

/// Lexer state: the tokens of the statement being read, the statements
/// finished so far, and the current parenthesis depth.
pub type ScanState = (Seq<SpecToken>, Seq<Seq<SpecToken>>, nat);

pub open spec fn is_ascii_ws(c: u8) -> bool {
    c == SPACE || c == TAB || c == LINE_FEED || c == FORM_FEED || c == CARRIAGE_RETURN
}

pub open spec fn is_ascii_alpha(c: u8) -> bool {
    (65 <= c <= 90) || (97 <= c <= 122)
}

pub open spec fn is_ascii_digit(c: u8) -> bool {
    48 <= c <= 57
}

pub open spec fn is_ident_start(c: u8) -> bool {
    is_ascii_alpha(c) || c == UNDERSCORE
}

pub open spec fn is_ident_char(c: u8) -> bool {
    is_ascii_alpha(c) || is_ascii_digit(c) || c == UNDERSCORE
}

/// Index of the first line feed at or after `i` (or `i` itself once past `end`).
pub open spec fn line_end(b: Seq<u8>, i: int, end: int) -> int
    decreases end - i,
{
    if i >= end {
        i
    } else if b[i] == LINE_FEED {
        i
    } else {
        line_end(b, i + 1, end)
    }
}

/// Index of the first `*/` that starts at or after `i` and ends before `end`,
/// or `end` when there is none.
pub open spec fn block_comment_end(b: Seq<u8>, i: int, end: int) -> int
    decreases end - i,
{
    if i + 1 < end {
        if b[i] == STAR && b[i + 1] == SLASH {
            i
        } else {
            block_comment_end(b, i + 1, end)
        }
    } else {
        end
    }
}

/// End of the run of identifier characters that starts at `i`.
pub open spec fn ident_end(b: Seq<u8>, i: int, end: int) -> int
    decreases end - i,
{
    if i < end && is_ident_char(b[i]) {
        ident_end(b, i + 1, end)
    } else {
        i
    }
}

/// Index just past the closing quote `q` of a quoted section whose body
/// starts at `i`; a doubled quote is an escaped quote.
pub open spec fn quote_end(b: Seq<u8>, i: int, end: int, q: u8) -> int
    decreases end - i,
{
    if i >= end {
        i
    } else if b[i] == q {
        if i + 1 < end && b[i + 1] == q {
            quote_end(b, i + 2, end, q)
        } else {
            i + 1
        }
    } else {
        quote_end(b, i + 1, end, q)
    }
}

/// First position at or after `from` where `d` occurs wholly before `end`.
pub open spec fn find_from(b: Seq<u8>, from: int, end: int, d: Seq<u8>) -> Option<int>
    decreases end - from,
{
    if d.len() == 0 || from < 0 || from + d.len() > end || end > b.len() {
        None
    } else if b.subrange(from, from + d.len()) == d {
        Some(from)
    } else {
        find_from(b, from + 1, end, d)
    }
}

/// Length of a PostgreSQL dollar-quote delimiter (`$$` or `$tag$`) starting at `start`.
pub open spec fn dollar_delimiter_len(b: Seq<u8>, start: int, end: int) -> Option<int> {
    if !(0 <= start < end) || b[start] != DOLLAR {
        None
    } else if start + 1 < end && b[start + 1] == DOLLAR {
        Some(2)
    } else if !(start + 1 < end && is_ident_start(b[start + 1])) {
        None
    } else {
        let j = ident_end(b, start + 2, end);
        if j < end && b[j] == DOLLAR {
            Some(j - start + 1)
        } else {
            None
        }
    }
}

/// Closes the statement being read, if it holds any token.
pub open spec fn push_statement(st: ScanState) -> ScanState {
    if st.0.len() > 0 {
        (Seq::empty(), st.1.push(st.0), st.2)
    } else {
        st
    }
}

pub open spec fn min_int(a: int, b: int) -> int {
    if a <= b {
        a
    } else {
        b
    }
}

pub proof fn lemma_line_end(b: Seq<u8>, i: int, end: int)
    requires
        i <= end,
    ensures
        i <= line_end(b, i, end) <= end,
    decreases end - i,
{
    if i < end && b[i] != LINE_FEED {
        lemma_line_end(b, i + 1, end);
    }
}

pub proof fn lemma_block_comment_end(b: Seq<u8>, i: int, end: int)
    requires
        i <= end,
    ensures
        i <= block_comment_end(b, i, end) <= end,
        block_comment_end(b, i, end) < end ==> block_comment_end(b, i, end) + 2 <= end,
    decreases end - i,
{
    if i + 1 < end && !(b[i] == STAR && b[i + 1] == SLASH) {
        lemma_block_comment_end(b, i + 1, end);
    }
}

pub proof fn lemma_ident_end(b: Seq<u8>, i: int, end: int)
    requires
        i <= end,
    ensures
        i <= ident_end(b, i, end) <= end,
    decreases end - i,
{
    if i < end && is_ident_char(b[i]) {
        lemma_ident_end(b, i + 1, end);
    }
}

pub proof fn lemma_quote_end(b: Seq<u8>, i: int, end: int, q: u8)
    requires
        i <= end,
    ensures
        i <= quote_end(b, i, end, q) <= end,
    decreases end - i,
{
    if i < end {
        if b[i] == q {
            if i + 1 < end && b[i + 1] == q {
                lemma_quote_end(b, i + 2, end, q);
            }
        } else {
            lemma_quote_end(b, i + 1, end, q);
        }
    }
}

pub proof fn lemma_find_from(b: Seq<u8>, from: int, end: int, d: Seq<u8>)
    ensures
        find_from(b, from, end, d) matches Some(k) ==> from <= k && k + d.len() <= end,
    decreases end - from,
{
    if !(d.len() == 0 || from < 0 || from + d.len() > end || end > b.len()) && b.subrange(from, from + d.len()) != d {
        lemma_find_from(b, from + 1, end, d);
    }
}

pub proof fn lemma_dollar_delimiter_len(b: Seq<u8>, start: int, end: int)
    requires
        end <= b.len(),
    ensures
        dollar_delimiter_len(b, start, end) matches Some(n) ==> 2 <= n && start + n <= end,
{
    if 0 <= start < end && b[start] == DOLLAR && !(start + 1 < end && b[start + 1] == DOLLAR) && (
    start + 1 < end && is_ident_start(b[start + 1])) {
        lemma_ident_end(b, start + 2, end);
    }
}

/// The lexer: reads `b[i..end]` starting from state `st`.
pub open spec fn scan(b: Seq<u8>, i: int, end: int, st: ScanState) -> ScanState
    decreases end - i,
{
    if i < 0 || i >= end || end > b.len() {
        st
    } else {
        let c = b[i];
        if is_ascii_ws(c) {
            scan(b, i + 1, end, st)
        } else if c == SEMICOLON {
            scan(
                b,
                i + 1,
                end,
                if st.2 == 0 {
                    push_statement(st)
                } else {
                    st
                },
            )
        } else if c == OPEN_PAREN {
            scan(b, i + 1, end, (st.0, st.1, st.2 + 1))
        } else if c == CLOSE_PAREN {
            scan(
                b,
                i + 1,
                end,
                (
                    st.0,
                    st.1,
                    if st.2 == 0 {
                        0
                    } else {
                        (st.2 - 1) as nat
                    },
                ),
            )
        } else if i + 1 < end && c == DASH && b[i + 1] == DASH {
            proof {
                lemma_line_end(b, i + 2, end);
            }
            scan(b, line_end(b, i + 2, end), end, st)
        } else if i + 1 < end && c == SLASH && b[i + 1] == STAR {
            if i + 2 < end && b[i + 2] == BANG {
                proof {
                    lemma_block_comment_end(b, i + 3, end);
                }
                let ce = block_comment_end(b, i + 3, end);
                let inner = scan(b, i + 3, ce, st);
                scan(b, min_int(ce + 2, end), end, inner)
            } else {
                proof {
                    lemma_block_comment_end(b, i + 2, end);
                }
                scan(b, min_int(block_comment_end(b, i + 2, end) + 2, end), end, st)
            }
        } else if dollar_delimiter_len(b, i, end) is Some {
            proof {
                lemma_dollar_delimiter_len(b, i, end);
            }
            let n = dollar_delimiter_len(b, i, end)->0;
            let d = b.subrange(i, i + n);
            proof {
                lemma_find_from(b, i + n, end, d);
            }
            match find_from(b, i + n, end, d) {
                Some(k) => scan(b, k + n, end, st),
                None => st,
            }
        } else if c == SINGLE_QUOTE || c == DOUBLE_QUOTE || c == BACKTICK {
            proof {
                lemma_quote_end(b, i + 1, end, c);
            }
            scan(b, quote_end(b, i + 1, end, c), end, st)
        } else if is_ident_start(c) {
            proof {
                lemma_ident_end(b, i + 1, end);
            }
            let j = ident_end(b, i + 1, end);
            scan(b, j, end, (st.0.push((upper_bytes(b.subrange(i, j)), st.2)), st.1, st.2))
        } else {
            scan(b, i + 1, end, st)
        }
    }
}

/// The executable statements of `b`, each a nonempty sequence of tokens.
pub open spec fn spec_statements(b: Seq<u8>) -> Seq<Seq<SpecToken>> {
    push_statement(scan(b, 0, b.len() as int, (Seq::empty(), Seq::empty(), 0))).1
}

/// The texts of all executable tokens of `b`, in order.
pub open spec fn spec_tokens(b: Seq<u8>) -> Seq<Seq<u8>> {
    spec_statements(b).map_values(|s: Seq<SpecToken>| s.map_values(|t: SpecToken| t.0)).flatten()
}

pub open spec fn is_upper_ident_start(c: u8) -> bool {
    (65 <= c <= 90) || c == UNDERSCORE
}

pub open spec fn is_upper_ident_char(c: u8) -> bool {
    (65 <= c <= 90) || is_ascii_digit(c) || c == UNDERSCORE
}

/// An upper-case identifier: a capital letter or `_`, then capital letters,
/// digits and `_`.
pub open spec fn is_upper_word(t: Seq<u8>) -> bool {
    &&& t.len() > 0
    &&& is_upper_ident_start(t[0])
    &&& forall|k: int| 0 <= k < t.len() ==> #[trigger] is_upper_ident_char(t[k])
}

/// The number of `(` in `b[i..end]`.
pub open spec fn open_paren_count(b: Seq<u8>, i: int, end: int) -> nat
    decreases end - i,
{
    if i < 0 || i >= end || end > b.len() {
        0
    } else {
        (if b[i] == OPEN_PAREN {
            1nat
        } else {
            0nat
        }) + open_paren_count(b, i + 1, end)
    }
}

/// Tokens that are upper-case identifiers no deeper than `bound`.
pub open spec fn tokens_well_formed(ts: Seq<SpecToken>, bound: nat) -> bool {
    forall|k: int| 0 <= k < ts.len() ==> is_upper_word((#[trigger] ts[k]).0) && ts[k].1 <= bound
}

/// A lexer state whose tokens are well formed, whose finished statements
/// are nonempty, and whose depth is at most `bound`.
pub open spec fn state_well_formed(st: ScanState, bound: nat) -> bool {
    &&& tokens_well_formed(st.0, bound)
    &&& forall|s: int| 0 <= s < st.1.len() ==> (#[trigger] st.1[s]).len() > 0 && tokens_well_formed(st.1[s], bound)
    &&& st.2 <= bound
}

proof fn lemma_open_paren_count_split(b: Seq<u8>, i: int, m: int, end: int)
    requires
        0 <= i <= m <= end <= b.len(),
    ensures
        open_paren_count(b, i, end) == open_paren_count(b, i, m) + open_paren_count(b, m, end),
    decreases m - i,
{
    if i < m {
        lemma_open_paren_count_split(b, i + 1, m, end);
    }
}

proof fn lemma_ident_end_chars(b: Seq<u8>, i: int, end: int)
    requires
        0 <= i <= end <= b.len(),
    ensures
        forall|k: int| i <= k < ident_end(b, i, end) ==> is_ident_char(#[trigger] b[k]),
    decreases end - i,
{
    if i < end && is_ident_char(b[i]) {
        lemma_ident_end_chars(b, i + 1, end);
    }
}

proof fn lemma_upper_identifier(b: Seq<u8>, i: int, j: int)
    requires
        0 <= i < j <= b.len(),
        is_ident_start(b[i]),
        forall|k: int| i < k < j ==> is_ident_char(#[trigger] b[k]),
    ensures
        is_upper_word(upper_bytes(b.subrange(i, j))),
{
    let t = upper_bytes(b.subrange(i, j));
    assert forall|k: int| 0 <= k < t.len() implies #[trigger] is_upper_ident_char(t[k]) by {
        assert(t[k] == crate::text::ascii_upper(b[i + k]));
        if k > 0 {
            assert(is_ident_char(b[i + k]));
        }
    }
    assert(t[0] == crate::text::ascii_upper(b[i]));
}

/// The lexer keeps its state well formed: it adds only upper-case
/// identifiers, closes only nonempty statements, and goes no deeper than
/// the `(` that it reads.
pub proof fn lemma_scan_well_formed(b: Seq<u8>, i: int, end: int, st: ScanState, bound: nat)
    requires
        state_well_formed(st, bound),
        st.2 + open_paren_count(b, i, end) <= bound,
    ensures
        state_well_formed(scan(b, i, end, st), bound),
        scan(b, i, end, st).2 <= st.2 + open_paren_count(b, i, end),
    decreases end - i,
{
    if i < 0 || i >= end || end > b.len() {
        return;
    }
    let c = b[i];
    lemma_open_paren_count_split(b, i, i + 1, end);
    if is_ascii_ws(c) {
        lemma_scan_well_formed(b, i + 1, end, st, bound);
    } else if c == SEMICOLON {
        let next = if st.2 == 0 {
            push_statement(st)
        } else {
            st
        };
        assert(state_well_formed(next, bound)) by {
            if st.2 == 0 && st.0.len() > 0 {
                assert forall|s: int| 0 <= s < next.1.len() implies (#[trigger] next.1[s]).len() > 0
                    && tokens_well_formed(next.1[s], bound) by {
                    if s < st.1.len() {
                        assert(next.1[s] == st.1[s]);
                    }
                }
            }
        }
        lemma_scan_well_formed(b, i + 1, end, next, bound);
    } else if c == OPEN_PAREN {
        lemma_scan_well_formed(b, i + 1, end, (st.0, st.1, st.2 + 1), bound);
    } else if c == CLOSE_PAREN {
        let d: nat = if st.2 == 0 {
            0
        } else {
            (st.2 - 1) as nat
        };
        lemma_scan_well_formed(b, i + 1, end, (st.0, st.1, d), bound);
    } else if i + 1 < end && c == DASH && b[i + 1] == DASH {
        lemma_line_end(b, i + 2, end);
        let j = line_end(b, i + 2, end);
        lemma_open_paren_count_split(b, i, j, end);
        lemma_scan_well_formed(b, j, end, st, bound);
    } else if i + 1 < end && c == SLASH && b[i + 1] == STAR {
        if i + 2 < end && b[i + 2] == BANG {
            lemma_block_comment_end(b, i + 3, end);
            let ce = block_comment_end(b, i + 3, end);
            let m = min_int(ce + 2, end);
            lemma_open_paren_count_split(b, i, i + 3, end);
            lemma_open_paren_count_split(b, i + 3, ce, end);
            lemma_open_paren_count_split(b, ce, m, end);
            lemma_scan_well_formed(b, i + 3, ce, st, bound);
            let inner = scan(b, i + 3, ce, st);
            lemma_scan_well_formed(b, m, end, inner, bound);
        } else {
            lemma_block_comment_end(b, i + 2, end);
            let m = min_int(block_comment_end(b, i + 2, end) + 2, end);
            lemma_open_paren_count_split(b, i, m, end);
            lemma_scan_well_formed(b, m, end, st, bound);
        }
    } else if dollar_delimiter_len(b, i, end) is Some {
        lemma_dollar_delimiter_len(b, i, end);
        let n = dollar_delimiter_len(b, i, end)->0;
        let d = b.subrange(i, i + n);
        lemma_find_from(b, i + n, end, d);
        match find_from(b, i + n, end, d) {
            Some(k) => {
                lemma_open_paren_count_split(b, i, k + n, end);
                lemma_scan_well_formed(b, k + n, end, st, bound);
            },
            None => {},
        }
    } else if c == SINGLE_QUOTE || c == DOUBLE_QUOTE || c == BACKTICK {
        lemma_quote_end(b, i + 1, end, c);
        let j = quote_end(b, i + 1, end, c);
        lemma_open_paren_count_split(b, i, j, end);
        lemma_scan_well_formed(b, j, end, st, bound);
    } else if is_ident_start(c) {
        lemma_ident_end(b, i + 1, end);
        let j = ident_end(b, i + 1, end);
        lemma_ident_end_chars(b, i + 1, end);
        lemma_upper_identifier(b, i, j);
        lemma_open_paren_count_split(b, i, j, end);
        let next = (st.0.push((upper_bytes(b.subrange(i, j)), st.2)), st.1, st.2);
        assert(tokens_well_formed(next.0, bound)) by {
            assert forall|k: int| 0 <= k < next.0.len() implies is_upper_word((#[trigger] next.0[k]).0)
                && next.0[k].1 <= bound by {
                if k < st.0.len() {
                    assert(next.0[k] == st.0[k]);
                }
            }
        }
        lemma_scan_well_formed(b, j, end, next, bound);
    } else {
        lemma_scan_well_formed(b, i + 1, end, st, bound);
    }
}

/// What the lexer gives for a text: every statement holds at least one
/// token, every token is an upper-case identifier, and a token's depth
/// counts parentheses: it is never more than the number of `(` in the
/// text, so a text without `(` has only top-level tokens.
pub proof fn law_statements_are_nonempty_upper_case_words(b: Seq<u8>)
    ensures
        forall|s: int|
            0 <= s < spec_statements(b).len() ==> (#[trigger] spec_statements(b)[s]).len() > 0 && tokens_well_formed(
                spec_statements(b)[s],
                open_paren_count(b, 0, b.len() as int),
            ),
{
    let bound = open_paren_count(b, 0, b.len() as int);
    let start: ScanState = (Seq::empty(), Seq::empty(), 0);
    lemma_scan_well_formed(b, 0, b.len() as int, start, bound);
    let st = scan(b, 0, b.len() as int, start);
    let fin = push_statement(st);
    assert forall|s: int| 0 <= s < fin.1.len() implies (#[trigger] fin.1[s]).len() > 0 && tokens_well_formed(
        fin.1[s],
        bound,
    ) by {
        if s < st.1.len() {
            assert(fin.1[s] == st.1[s]);
        }
    }
}

/// `b1` and `b2` agree on the positions `i..end`.
pub open spec fn agree_on(b1: Seq<u8>, b2: Seq<u8>, i: int, end: int) -> bool {
    forall|j: int| i <= j < end ==> #[trigger] b1[j] == b2[j]
}

proof fn lemma_window_line_end(b1: Seq<u8>, b2: Seq<u8>, i: int, end: int)
    requires
        0 <= i,
        agree_on(b1, b2, i, end),
    ensures
        line_end(b1, i, end) == line_end(b2, i, end),
    decreases end - i,
{
    if i < end && b1[i] != LINE_FEED {
        lemma_window_line_end(b1, b2, i + 1, end);
    }
}

proof fn lemma_window_block_comment_end(b1: Seq<u8>, b2: Seq<u8>, i: int, end: int)
    requires
        0 <= i,
        agree_on(b1, b2, i, end),
    ensures
        block_comment_end(b1, i, end) == block_comment_end(b2, i, end),
    decreases end - i,
{
    if i + 1 < end {
        assert(b1[i] == b2[i] && b1[i + 1] == b2[i + 1]);
        if !(b1[i] == STAR && b1[i + 1] == SLASH) {
            lemma_window_block_comment_end(b1, b2, i + 1, end);
        }
    }
}

proof fn lemma_window_ident_end(b1: Seq<u8>, b2: Seq<u8>, i: int, end: int)
    requires
        0 <= i,
        agree_on(b1, b2, i, end),
    ensures
        ident_end(b1, i, end) == ident_end(b2, i, end),
    decreases end - i,
{
    if i < end {
        assert(b1[i] == b2[i]);
        if is_ident_char(b1[i]) {
            lemma_window_ident_end(b1, b2, i + 1, end);
        }
    }
}

proof fn lemma_window_quote_end(b1: Seq<u8>, b2: Seq<u8>, i: int, end: int, q: u8)
    requires
        0 <= i,
        agree_on(b1, b2, i, end),
    ensures
        quote_end(b1, i, end, q) == quote_end(b2, i, end, q),
    decreases end - i,
{
    if i < end {
        assert(b1[i] == b2[i]);
        if b1[i] == q {
            if i + 1 < end {
                assert(b1[i + 1] == b2[i + 1]);
                if b1[i + 1] == q {
                    lemma_window_quote_end(b1, b2, i + 2, end, q);
                }
            }
        } else {
            lemma_window_quote_end(b1, b2, i + 1, end, q);
        }
    }
}

proof fn lemma_window_find_from(b1: Seq<u8>, b2: Seq<u8>, from: int, end: int, d: Seq<u8>)
    requires
        b1.len() == b2.len(),
        agree_on(b1, b2, from, end),
    ensures
        find_from(b1, from, end, d) == find_from(b2, from, end, d),
    decreases end - from,
{
    if !(d.len() == 0 || from < 0 || from + d.len() > end || end > b1.len()) {
        assert(b1.subrange(from, from + d.len()) =~= b2.subrange(from, from + d.len()));
        lemma_window_find_from(b1, b2, from + 1, end, d);
    }
}

proof fn lemma_window_dollar(b1: Seq<u8>, b2: Seq<u8>, start: int, end: int)
    requires
        0 <= start,
        agree_on(b1, b2, start, end),
    ensures
        dollar_delimiter_len(b1, start, end) == dollar_delimiter_len(b2, start, end),
{
    if start < end {
        assert(b1[start] == b2[start]);
        if start + 1 < end {
            assert(b1[start + 1] == b2[start + 1]);
        }
        lemma_window_ident_end(b1, b2, start + 2, end);
        let j = ident_end(b1, start + 2, end);
        if start + 2 <= end {
            lemma_ident_end(b1, start + 2, end);
        }
        if j < end {
            assert(b1[j] == b2[j]);
        }
    }
}

/// The lexer reads only the bytes between its start and its end.
pub proof fn lemma_scan_reads_only_its_window(b1: Seq<u8>, b2: Seq<u8>, i: int, end: int, st: ScanState)
    requires
        b1.len() == b2.len(),
        agree_on(b1, b2, i, end),
    ensures
        scan(b1, i, end, st) == scan(b2, i, end, st),
    decreases end - i,
{
    if i < 0 || i >= end || end > b1.len() {
        return;
    }
    let c = b1[i];
    assert(b2[i] == c);
    assert(agree_on(b1, b2, i + 1, end));
    if i + 1 < end {
        assert(b1[i + 1] == b2[i + 1]);
    }
    if i + 2 < end {
        assert(b1[i + 2] == b2[i + 2]);
    }
    if is_ascii_ws(c) {
        lemma_scan_reads_only_its_window(b1, b2, i + 1, end, st);
    } else if c == SEMICOLON {
        let next = if st.2 == 0 {
            push_statement(st)
        } else {
            st
        };
        lemma_scan_reads_only_its_window(b1, b2, i + 1, end, next);
    } else if c == OPEN_PAREN {
        lemma_scan_reads_only_its_window(b1, b2, i + 1, end, (st.0, st.1, st.2 + 1));
    } else if c == CLOSE_PAREN {
        let d: nat = if st.2 == 0 {
            0
        } else {
            (st.2 - 1) as nat
        };
        lemma_scan_reads_only_its_window(b1, b2, i + 1, end, (st.0, st.1, d));
    } else if i + 1 < end && c == DASH && b1[i + 1] == DASH {
        lemma_line_end(b1, i + 2, end);
        lemma_window_line_end(b1, b2, i + 2, end);
        let j = line_end(b1, i + 2, end);
        lemma_scan_reads_only_its_window(b1, b2, j, end, st);
    } else if i + 1 < end && c == SLASH && b1[i + 1] == STAR {
        if i + 2 < end && b1[i + 2] == BANG {
            lemma_block_comment_end(b1, i + 3, end);
            lemma_window_block_comment_end(b1, b2, i + 3, end);
            let ce = block_comment_end(b1, i + 3, end);
            let m = min_int(ce + 2, end);
            assert(agree_on(b1, b2, i + 3, ce));
            lemma_scan_reads_only_its_window(b1, b2, i + 3, ce, st);
            let inner = scan(b1, i + 3, ce, st);
            lemma_scan_reads_only_its_window(b1, b2, m, end, inner);
        } else {
            lemma_block_comment_end(b1, i + 2, end);
            lemma_window_block_comment_end(b1, b2, i + 2, end);
            let m = min_int(block_comment_end(b1, i + 2, end) + 2, end);
            lemma_scan_reads_only_its_window(b1, b2, m, end, st);
        }
    } else if dollar_delimiter_len(b1, i, end) is Some {
        lemma_window_dollar(b1, b2, i, end);
        lemma_dollar_delimiter_len(b1, i, end);
        let n = dollar_delimiter_len(b1, i, end)->0;
        let d = b1.subrange(i, i + n);
        assert(d =~= b2.subrange(i, i + n));
        lemma_find_from(b1, i + n, end, d);
        lemma_window_find_from(b1, b2, i + n, end, d);
        match find_from(b1, i + n, end, d) {
            Some(k) => {
                lemma_scan_reads_only_its_window(b1, b2, k + n, end, st);
            },
            None => {},
        }
    } else if c == SINGLE_QUOTE || c == DOUBLE_QUOTE || c == BACKTICK {
        lemma_window_dollar(b1, b2, i, end);
        lemma_quote_end(b1, i + 1, end, c);
        lemma_window_quote_end(b1, b2, i + 1, end, c);
        lemma_scan_reads_only_its_window(b1, b2, quote_end(b1, i + 1, end, c), end, st);
    } else if is_ident_start(c) {
        lemma_window_dollar(b1, b2, i, end);
        lemma_ident_end(b1, i + 1, end);
        lemma_window_ident_end(b1, b2, i + 1, end);
        let j = ident_end(b1, i + 1, end);
        assert(b1.subrange(i, j) =~= b2.subrange(i, j));
        let next = (st.0.push((upper_bytes(b1.subrange(i, j)), st.2)), st.1, st.2);
        lemma_scan_reads_only_its_window(b1, b2, j, end, next);
    } else {
        lemma_window_dollar(b1, b2, i, end);
        lemma_scan_reads_only_its_window(b1, b2, i + 1, end, st);
    }
}

proof fn lemma_closed_quote_end(b: Seq<u8>, j: int, k: int, end: int, q: u8)
    requires
        0 <= j <= k < end <= b.len(),
        b[k] == q,
        k + 1 == end || b[k + 1] != q,
        forall|m: int| j <= m < k ==> #[trigger] b[m] != q,
    ensures
        quote_end(b, j, end, q) == k + 1,
    decreases k - j,
{
    if j < k {
        lemma_closed_quote_end(b, j + 1, k, end, q);
    }
}

/// Quoted text contributes nothing: where the lexer meets a `'` (0x27), a
/// `"` (0x22) or a backtick (0x60) that opens a closed literal, changing the literal's body to
/// any other bytes without that quote leaves everything the lexer produces
/// from there unchanged.
pub proof fn law_quoted_text_contributes_nothing(
    b1: Seq<u8>,
    b2: Seq<u8>,
    i: int,
    k: int,
    end: int,
    st: ScanState,
)
    requires
        0 <= i < k < end <= b1.len(),
        b1.len() == b2.len(),
        b1[i] == 0x27 || b1[i] == 0x22 || b1[i] == 0x60,
        b1[k] == b1[i],
        k + 1 == end || b1[k + 1] != b1[i],
        forall|j: int| i < j < k ==> #[trigger] b1[j] != b1[i] && b2[j] != b1[i],
        forall|j: int| 0 <= j < b1.len() && !(i < j < k) ==> #[trigger] b1[j] == b2[j],
    ensures
        scan(b1, i, end, st) == scan(b2, i, end, st),
{
    let q = b1[i];
    assert(b2[i] == q && b2[k] == q);
    if k + 1 < end {
        assert(b2[k + 1] == b1[k + 1]);
    }
    assert(dollar_delimiter_len(b1, i, end) is None);
    assert(dollar_delimiter_len(b2, i, end) is None);
    lemma_closed_quote_end(b1, i + 1, k, end, q);
    assert forall|m: int| i + 1 <= m < k implies #[trigger] b2[m] != q by {
        assert(b1[m] != q);
    }
    lemma_closed_quote_end(b2, i + 1, k, end, q);
    assert(agree_on(b1, b2, k + 1, end));
    lemma_scan_reads_only_its_window(b1, b2, k + 1, end, st);
}

/// At the start of a text, in particular: a text that opens with a closed
/// quoted literal has the statements and tokens of any text that differs
/// only in that literal's body (without its quote).
pub proof fn law_leading_literal_contributes_nothing(b1: Seq<u8>, b2: Seq<u8>, k: int)
    requires
        0 < k < b1.len(),
        b1.len() == b2.len(),
        b1[0] == 0x27 || b1[0] == 0x22 || b1[0] == 0x60,
        b1[k] == b1[0],
        k + 1 == b1.len() || b1[k + 1] != b1[0],
        forall|j: int| 0 < j < k ==> #[trigger] b1[j] != b1[0] && b2[j] != b1[0],
        forall|j: int| 0 <= j < b1.len() && !(0 < j < k) ==> #[trigger] b1[j] == b2[j],
    ensures
        spec_statements(b1) == spec_statements(b2),
        spec_tokens(b1) == spec_tokens(b2),
{
    law_quoted_text_contributes_nothing(b1, b2, 0, k, b1.len() as int, (Seq::empty(), Seq::empty(), 0));
}

pub struct SqlToken {
    pub text: Vec<u8>,
    pub depth: usize,
}

impl View for SqlToken {
    type V = SpecToken;

    open spec fn view(&self) -> SpecToken {
        (self.text@, self.depth as nat)
    }
}

pub open spec fn tokens_view(v: Seq<SqlToken>) -> Seq<SpecToken> {
    v.map_values(|t: SqlToken| t@)
}

pub open spec fn statements_view(v: Seq<Vec<SqlToken>>) -> Seq<Seq<SpecToken>> {
    v.map_values(|s: Vec<SqlToken>| tokens_view(s@))
}

pub open spec fn state_view(current: Seq<SqlToken>, statements: Seq<Vec<SqlToken>>, depth: usize) -> ScanState {
    (tokens_view(current), statements_view(statements), depth as nat)
}

fn is_ws_byte(c: u8) -> (r: bool)
    ensures
        r == is_ascii_ws(c),
{
    c == SPACE || c == TAB || c == LINE_FEED || c == FORM_FEED || c == CARRIAGE_RETURN
}

fn is_ident_start_byte(c: u8) -> (r: bool)
    ensures
        r == is_ident_start(c),
{
    (65 <= c && c <= 90) || (97 <= c && c <= 122) || c == UNDERSCORE
}

fn is_ident_byte(c: u8) -> (r: bool)
    ensures
        r == is_ident_char(c),
{
    (65 <= c && c <= 90) || (97 <= c && c <= 122) || (48 <= c && c <= 57) || c == UNDERSCORE
}

/// ASCII upper-case copy of `b[start..end]`.
fn upper_copy(b: &[u8], start: usize, end: usize) -> (r: Vec<u8>)
    requires
        start <= end <= b@.len(),
    ensures
        r@ == upper_bytes(b@.subrange(start as int, end as int)),
{
    let mut r: Vec<u8> = Vec::new();
    let mut k = start;
    while k < end
        invariant
            start <= k <= end <= b@.len(),
            r@ == upper_bytes(b@.subrange(start as int, k as int)),
        decreases end - k,
    {
        r.push(to_upper_byte(b[k]));
        k += 1;
        assert(b@.subrange(start as int, k as int) =~= b@.subrange(start as int, k - 1).push(
            b@[k - 1],
        ));
        assert(r@ =~= upper_bytes(b@.subrange(start as int, k as int)));
    }
    r
}

fn line_end_exec(b: &[u8], i: usize, end: usize) -> (r: usize)
    requires
        i <= end <= b@.len(),
    ensures
        r == line_end(b@, i as int, end as int),
{
    let mut k = i;
    while k < end && b[k] != LINE_FEED
        invariant
            i <= k <= end <= b@.len(),
            line_end(b@, k as int, end as int) == line_end(b@, i as int, end as int),
        decreases end - k,
    {
        k += 1;
    }
    k
}

fn block_comment_end_exec(b: &[u8], i: usize, end: usize) -> (r: usize)
    requires
        i <= end <= b@.len(),
    ensures
        r == block_comment_end(b@, i as int, end as int),
{
    let mut k = i;
    while end - k > 1
        invariant
            i <= k <= end <= b@.len(),
            block_comment_end(b@, k as int, end as int) == block_comment_end(
                b@,
                i as int,
                end as int,
            ),
        decreases end - k,
    {
        if b[k] == STAR && b[k + 1] == SLASH {
            return k;
        }
        k += 1;
    }
    end
}

fn ident_end_exec(b: &[u8], i: usize, end: usize) -> (r: usize)
    requires
        i <= end <= b@.len(),
    ensures
        r == ident_end(b@, i as int, end as int),
{
    let mut k = i;
    while k < end && is_ident_byte(b[k])
        invariant
            i <= k <= end <= b@.len(),
            ident_end(b@, k as int, end as int) == ident_end(b@, i as int, end as int),
        decreases end - k,
    {
        k += 1;
    }
    k
}

fn quote_end_exec(b: &[u8], i: usize, end: usize, q: u8) -> (r: usize)
    requires
        i <= end <= b@.len(),
    ensures
        r == quote_end(b@, i as int, end as int, q),
{
    let mut k = i;
    while k < end
        invariant
            i <= k <= end <= b@.len(),
            quote_end(b@, k as int, end as int, q) == quote_end(b@, i as int, end as int, q),
        decreases end - k,
    {
        if b[k] == q {
            if k + 1 < end && b[k + 1] == q {
                k += 2;
                continue;
            }
            return k + 1;
        }
        k += 1;
    }
    k
}

/// Whether `b[at..at + len]` equals `b[d..d + len]`.
fn same_bytes(b: &[u8], at: usize, d: usize, len: usize) -> (r: bool)
    requires
        at + len <= b.len(),
        d + len <= b.len(),
    ensures
        r == (b@.subrange(at as int, at + len) == b@.subrange(d as int, d + len)),
{
    let ghost x = b@.subrange(at as int, at + len);
    let ghost y = b@.subrange(d as int, d + len);
    let mut k: usize = 0;
    while k < len
        invariant
            k <= len,
            at + len <= b.len(),
            d + len <= b.len(),
            x == b@.subrange(at as int, at + len),
            y == b@.subrange(d as int, d + len),
            forall|m: int| 0 <= m < k ==> #[trigger] x[m] == y[m],
        decreases len - k,
    {
        if b[at + k] != b[d + k] {
            assert(x[k as int] != y[k as int]);
            return false;
        }
        k += 1;
    }
    assert(b@.subrange(at as int, at + len) =~= b@.subrange(d as int, d + len));
    true
}

fn find_from_exec(b: &[u8], from: usize, end: usize, d: usize, len: usize) -> (r: Option<usize>)
    requires
        from <= end <= b.len(),
        d + len <= b.len(),
        len >= 1,
    ensures
        r matches Some(k) ==> find_from(b@, from as int, end as int, b@.subrange(d as int, d + len))
            == Some(k as int),
        r is None ==> find_from(b@, from as int, end as int, b@.subrange(d as int, d + len))
            is None,
{
    let ghost delim = b@.subrange(d as int, d + len);
    let mut k = from;
    while k <= end && len <= end - k
        invariant
            from <= k,
            end <= b.len(),
            d + len <= b.len(),
            len >= 1,
            delim == b@.subrange(d as int, d + len),
            find_from(b@, k as int, end as int, delim) == find_from(
                b@,
                from as int,
                end as int,
                delim,
            ),
        decreases end + 1 - k,
    {
        if same_bytes(b, k, d, len) {
            return Some(k);
        }
        k += 1;
    }
    None
}

fn dollar_delimiter_len_exec(b: &[u8], start: usize, end: usize) -> (r: Option<usize>)
    requires
        start <= end <= b@.len(),
    ensures
        r matches Some(n) ==> dollar_delimiter_len(b@, start as int, end as int) == Some(n as int),
        r is None ==> dollar_delimiter_len(b@, start as int, end as int) is None,
{
    if !(start < end) || b[start] != DOLLAR {
        return None;
    }
    if start + 1 < end && b[start + 1] == DOLLAR {
        return Some(2);
    }
    if !(start + 1 < end && is_ident_start_byte(b[start + 1])) {
        return None;
    }
    let j = ident_end_exec(b, start + 2, end);
    proof {
        lemma_ident_end(b@, start + 2, end as int);
    }
    if j < end && b[j] == DOLLAR {
        Some(j - start + 1)
    } else {
        None
    }
}

fn push_statement_exec(current: &mut Vec<SqlToken>, statements: &mut Vec<Vec<SqlToken>>, depth: usize)
    ensures
        state_view(final(current)@, final(statements)@, depth) == push_statement(
            state_view(old(current)@, old(statements)@, depth),
        ),
{
    if current.len() > 0 {
        let mut taken: Vec<SqlToken> = Vec::new();
        std::mem::swap(&mut taken, current);
        statements.push(taken);
        proof {
            assert(tokens_view(current@) =~= Seq::<SpecToken>::empty());
            assert(statements_view(statements@) =~= statements_view(old(statements)@).push(
                tokens_view(old(current)@),
            ));
        }
    }
}

/// Lexes `bytes[start..end]` into `current`, `statements` and `depth`.
pub fn scan_executable_tokens(
    bytes: &[u8],
    start: usize,
    end: usize,
    current: &mut Vec<SqlToken>,
    statements: &mut Vec<Vec<SqlToken>>,
    depth: &mut usize,
)
    requires
        start <= end <= bytes@.len(),
        *old(depth) + (end - start) <= usize::MAX,
    ensures
        state_view(final(current)@, final(statements)@, *final(depth)) == scan(
            bytes@,
            start as int,
            end as int,
            state_view(old(current)@, old(statements)@, *old(depth)),
        ),
        *final(depth) <= *old(depth) + (end - start),
    decreases end - start,
{
    let ghost b = bytes@;
    let ghost target = scan(
        b,
        start as int,
        end as int,
        state_view(current@, statements@, *depth),
    );
    let ghost depth0: int = *depth as int;
    let mut i = start;
    while i < end
        invariant
            start <= i <= end <= b.len(),
            b == bytes@,
            depth0 + (end - start) <= usize::MAX,
            *depth <= depth0 + (i - start),
            scan(b, i as int, end as int, state_view(current@, statements@, *depth)) == target,
        decreases end - i,
    {
        let c = bytes[i];
        if is_ws_byte(c) {
            i += 1;
            continue;
        }
        if c == SEMICOLON {
            if *depth == 0 {
                push_statement_exec(current, statements, *depth);
            }
            i += 1;
            continue;
        }
        if c == OPEN_PAREN {
            *depth += 1;
            i += 1;
            continue;
        }
        if c == CLOSE_PAREN {
            if *depth > 0 {
                *depth -= 1;
            }
            i += 1;
            continue;
        }
        if i + 1 < end && c == DASH && bytes[i + 1] == DASH {
            proof {
                lemma_line_end(b, i + 2, end as int);
            }
            i = line_end_exec(bytes, i + 2, end);
            continue;
        }
        if i + 1 < end && c == SLASH && bytes[i + 1] == STAR {
            if i + 2 < end && bytes[i + 2] == BANG {
                proof {
                    lemma_block_comment_end(b, i + 3, end as int);
                }
                let content_end = block_comment_end_exec(bytes, i + 3, end);
                scan_executable_tokens(bytes, i + 3, content_end, current, statements, depth);
                i = if content_end < end {
                    content_end + 2
                } else {
                    end
                };
            } else {
                proof {
                    lemma_block_comment_end(b, i + 2, end as int);
                }
                let comment_end = block_comment_end_exec(bytes, i + 2, end);
                i = if comment_end < end {
                    comment_end + 2
                } else {
                    end
                };
            }
            continue;
        }
        let dollar = dollar_delimiter_len_exec(bytes, i, end);
        if let Some(n) = dollar {
            proof {
                lemma_dollar_delimiter_len(b, i as int, end as int);
                lemma_find_from(b, i + n, end as int, b.subrange(i as int, i + n));
            }
            match find_from_exec(bytes, i + n, end, i, n) {
                Some(k) => {
                    i = k + n;
                },
                None => {
                    i = end;
                },
            }
            continue;
        }
        if c == SINGLE_QUOTE || c == DOUBLE_QUOTE || c == BACKTICK {
            proof {
                lemma_quote_end(b, i + 1, end as int, c);
            }
            i = quote_end_exec(bytes, i + 1, end, c);
            continue;
        }
        if is_ident_start_byte(c) {
            proof {
                lemma_ident_end(b, i + 1, end as int);
            }
            let j = ident_end_exec(bytes, i + 1, end);
            let text = upper_copy(bytes, i, j);
            let ghost before = state_view(current@, statements@, *depth);
            current.push(SqlToken { text, depth: *depth });
            proof {
                assert(tokens_view(current@) =~= before.0.push(
                    (upper_bytes(b.subrange(i as int, j as int)), *depth as nat),
                ));
            }
            i = j;
            continue;
        }
        i += 1;
    }
}

/// Lexes all of `bytes` into its nonempty executable statements.
pub fn scanned_executable_statements(bytes: &[u8]) -> (r: Vec<Vec<SqlToken>>)
    ensures
        statements_view(r@) == spec_statements(bytes@),
{
    let mut statements: Vec<Vec<SqlToken>> = Vec::new();
    let mut current: Vec<SqlToken> = Vec::new();
    let mut depth: usize = 0;
    proof {
        assert(tokens_view(current@) =~= Seq::<SpecToken>::empty());
        assert(statements_view(statements@) =~= Seq::<Seq<SpecToken>>::empty());
    }
    scan_executable_tokens(bytes, 0, bytes.len(), &mut current, &mut statements, &mut depth);
    push_statement_exec(&mut current, &mut statements, depth);
    statements
}

} // verus!
