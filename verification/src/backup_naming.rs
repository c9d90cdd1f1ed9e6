//! Names of backup files and messages of backup runs.
use vstd::prelude::*;
use vstd::string::StringSliceAdditionalSpecFns;
use vstd::utf8::{decode_utf8, encode_utf8, is_char_boundary};

use crate::backup_time::is_stamp_char;
use crate::paths::{
    has_leading_cur_dir, has_root, is_managed_backup_name, last_index_of, lemma_last_index_of, managed_backup_prefix,
    normal_parts, spec_component_count, spec_path_extension, spec_path_file_name,
};
use crate::text::{
    chars_of, chars_to_string, string_push, string_push_str, trim_chars, trimmed,
};

verus! {

broadcast use vstd::string::group_string_axioms;

pub const BACKUP_NAME_SEGMENT_MAX_BYTES: usize = 100;

pub const BACKUP_RUN_ID_SEGMENT_MAX_BYTES: usize = 8;

/// The Unicode general category `Cc` (control codes), which `char::is_control` tests.
pub open spec fn is_control_char(c: char) -> bool {
    let u = c as u32;
    u <= 0x1F || (0x7F <= u <= 0x9F)
}

/// Characters that some file systems refuse in a file name.
pub open spec fn is_reserved_file_char(c: char) -> bool {
    c == '\\' || c == '/' || c == ':' || c == '*' || c == '?' || c == '"' || c == '<' || c == '>'
        || c == '|'
}

pub open spec fn sanitized_char(c: char) -> char {
    if is_control_char(c) || is_reserved_file_char(c) {
        '_'
    } else {
        c
    }
}

pub open spec fn trim_end_dots_and_spaces(s: Seq<char>) -> Seq<char>
    decreases s.len(),
{
    if s.len() > 0 && (s.last() == '.' || s.last() == ' ') {
        trim_end_dots_and_spaces(s.drop_last())
    } else {
        s
    }
}

/// A file name segment made from `v`: control and reserved characters
/// become `_`, white space is trimmed and trailing dots and spaces dropped;
/// nothing left gives `database`.
pub open spec fn spec_sanitize_file_segment(v: Seq<char>) -> Seq<char> {
    let t = trim_end_dots_and_spaces(trim_chars(v.map_values(|c: char| sanitized_char(c))));
    if t.len() == 0 {
        "database"@
    } else {
        t
    }
}

/// Whether `c` is a control code, as `char::is_control` tests it.
pub(crate) fn char_is_control(c: char) -> (r: bool)
    ensures
        r == is_control_char(c),
{
    let u = c as u32;
    u <= 0x1F || (0x7F <= u && u <= 0x9F)
}

fn sanitize_char(c: char) -> (r: char)
    ensures
        r == sanitized_char(c),
{
    if char_is_control(c) || c == '\\' || c == '/' || c == ':' || c == '*' || c == '?' || c == '"'
        || c == '<' || c == '>' || c == '|' {
        '_'
    } else {
        c
    }
}

pub fn sanitize_file_segment(value: &str) -> (r: String)
    ensures
        r@ == spec_sanitize_file_segment(value@),
        all_safe_file_chars(r@),
{
    proof {
        law_sanitized_segment_is_safe(value@);
    }
    let chars = chars_of(value);
    let ghost mapped = chars@.map_values(|c: char| sanitized_char(c));
    let mut replaced = String::new();
    let mut k: usize = 0;
    while k < chars.len()
        invariant
            k <= chars.len(),
            mapped == chars@.map_values(|c: char| sanitized_char(c)),
            replaced@ == mapped.take(k as int),
        decreases chars.len() - k,
    {
        string_push(&mut replaced, sanitize_char(chars[k]));
        assert(replaced@ =~= mapped.take(k + 1));
        k += 1;
    }
    assert(mapped.take(k as int) =~= mapped);
    let t = trimmed(replaced.as_str());
    let tc = chars_of(t.as_str());
    let mut end = tc.len();
    assert(tc@.subrange(0, end as int) =~= tc@);
    while end > 0 && (tc[end - 1] == '.' || tc[end - 1] == ' ')
        invariant
            end <= tc@.len(),
            trim_end_dots_and_spaces(tc@.subrange(0, end as int)) == trim_end_dots_and_spaces(tc@),
        decreases end,
    {
        assert(tc@.subrange(0, end as int).drop_last() =~= tc@.subrange(0, end - 1));
        end -= 1;
    }
    assert(tc@.subrange(0, tc@.len() as int) =~= tc@);
    if end == 0 {
        proof {
            reveal_strlit("database");
        }
        return "database".to_owned();
    }
    chars_to_string(&tc, 0, end)
}

/// The largest char boundary of `b` at or below `m`.
pub open spec fn char_boundary_at_most(b: Seq<u8>, m: int) -> int
    decreases m,
{
    if m <= 0 {
        0
    } else if is_char_boundary(b, m) {
        m
    } else {
        char_boundary_at_most(b, m - 1)
    }
}

pub proof fn lemma_char_boundary_at_most(b: Seq<u8>, m: int)
    requires
        vstd::utf8::valid_utf8(b),
    ensures
        0 <= char_boundary_at_most(b, m) <= if m < 0 { 0 } else { m },
        is_char_boundary(b, char_boundary_at_most(b, m)),
    decreases m,
{
    vstd::utf8::is_char_boundary_start_end_of_seq(b);
    if m > 0 && !is_char_boundary(b, m) {
        lemma_char_boundary_at_most(b, m - 1);
    }
}

/// The UTF-8 bytes of the sanitized `value`, cut at a char boundary to at
/// most `max_bytes` bytes.
pub open spec fn spec_bounded_segment_bytes(value: Seq<char>, max_bytes: nat) -> Seq<u8> {
    let b = encode_utf8(spec_sanitize_file_segment(value));
    if b.len() <= max_bytes {
        b
    } else {
        b.take(char_boundary_at_most(b, max_bytes as int))
    }
}

pub fn bounded_file_segment(value: &str, max_bytes: usize) -> (r: String)
    ensures
        encode_utf8(r@) == spec_bounded_segment_bytes(value@, max_bytes as nat),
        r@ == decode_utf8(spec_bounded_segment_bytes(value@, max_bytes as nat)),
{
    let sanitized = sanitize_file_segment(value);
    let s = sanitized.as_str();
    proof {
        broadcast use vstd::utf8::encode_utf8_decode_utf8, vstd::utf8::encode_utf8_valid_utf8;
        assert(decode_utf8(encode_utf8(sanitized@)) == sanitized@);
        assert(vstd::utf8::valid_utf8(encode_utf8(sanitized@)));
    }
    if s.as_bytes().len() <= max_bytes {
        return sanitized;
    }
    let ghost b = s.spec_bytes();
    proof {
        lemma_char_boundary_at_most(b, max_bytes as int);
    }
    let mut end = max_bytes;
    while !s.is_char_boundary(end)
        invariant
            end <= max_bytes < b.len(),
            b == s.spec_bytes(),
            vstd::utf8::valid_utf8(b),
            char_boundary_at_most(b, end as int) == char_boundary_at_most(b, max_bytes as int),
        decreases end,
    {
        proof {
            vstd::utf8::is_char_boundary_start_end_of_seq(b);
        }
        end -= 1;
    }
    proof {
        vstd::utf8::is_char_boundary_start_end_of_seq(b);
    }
    let (head, _) = s.split_at(end);
    let r = head.to_owned();
    proof {
        broadcast use vstd::utf8::encode_utf8_decode_utf8;
        assert(head.spec_bytes() =~= b.take(end as int));
        assert(decode_utf8(encode_utf8(head@)) == head@);
    }
    r
}

/// The name of a backup file: managed prefix, schedule name, start time,
/// file stem and short run id, joined by `__`, with the `.sql` extension.
pub open spec fn spec_backup_file_name(
    schedule_name: Seq<char>,
    file_stem: Seq<char>,
    stamp: Seq<char>,
    run_id: Seq<char>,
) -> Seq<char> {
    "dbx-backup__"@ + decode_utf8(
        spec_bounded_segment_bytes(schedule_name, BACKUP_NAME_SEGMENT_MAX_BYTES as nat),
    ) + "__"@ + stamp + "__"@ + decode_utf8(
        spec_bounded_segment_bytes(file_stem, BACKUP_NAME_SEGMENT_MAX_BYTES as nat),
    ) + "__"@ + decode_utf8(
        spec_bounded_segment_bytes(run_id, BACKUP_RUN_ID_SEGMENT_MAX_BYTES as nat),
    ) + ".sql"@
}

/// The name of a backup file whose start time is written as `stamp`.
pub fn backup_file_name_with_stamp(schedule_name: &str, file_stem: &str, stamp: &str, run_id: &str) -> (r:
    String)
    ensures
        r@ == spec_backup_file_name(schedule_name@, file_stem@, stamp@, run_id@),
{
    let mut name = "dbx-backup__".to_owned();
    let a = bounded_file_segment(schedule_name, BACKUP_NAME_SEGMENT_MAX_BYTES);
    string_push_str(&mut name, a.as_str());
    string_push_str(&mut name, "__");
    string_push_str(&mut name, stamp);
    string_push_str(&mut name, "__");
    let b = bounded_file_segment(file_stem, BACKUP_NAME_SEGMENT_MAX_BYTES);
    string_push_str(&mut name, b.as_str());
    string_push_str(&mut name, "__");
    let c = bounded_file_segment(run_id, BACKUP_RUN_ID_SEGMENT_MAX_BYTES);
    string_push_str(&mut name, c.as_str());
    string_push_str(&mut name, ".sql");
    name
}

/// `current` followed by `next`, separated by `; `.
pub open spec fn spec_append_error(current: Option<Seq<char>>, next: Seq<char>) -> Seq<char> {
    match current {
        Some(c) => c + "; "@ + next,
        None => next,
    }
}

pub fn append_error(current: Option<String>, next: String) -> (r: Option<String>)
    ensures
        r matches Some(s) && s@ == spec_append_error(
            match current {
                Some(c) => Some(c@),
                None => None,
            },
            next@,
        ),
{
    Some(
        match current {
            Some(current) => {
                let mut joined = current;
                string_push_str(&mut joined, "; ");
                string_push_str(&mut joined, next.as_str());
                joined
            },
            None => next,
        },
    )
}

proof fn lemma_encode_utf8_concat(a: Seq<char>, b: Seq<char>)
    ensures
        encode_utf8(a + b) == encode_utf8(a) + encode_utf8(b),
    decreases a.len(),
{
    if a.len() == 0 {
        assert(a + b =~= b);
        assert(encode_utf8(a) + encode_utf8(b) =~= encode_utf8(b));
    } else {
        assert((a + b).drop_first() =~= a.drop_first() + b);
        assert((a + b)[0] == a[0]);
        lemma_encode_utf8_concat(a.drop_first(), b);
        assert(encode_utf8(a + b) =~= encode_utf8(a) + encode_utf8(b));
    }
}

/// Characters below 128 take one byte each.
proof fn lemma_encode_ascii_len(s: Seq<char>)
    requires
        forall|k: int| 0 <= k < s.len() ==> (#[trigger] s[k]) as u32 <= 0x7F,
    ensures
        encode_utf8(s).len() == s.len(),
    decreases s.len(),
{
    if s.len() > 0 {
        assert forall|k: int| 0 <= k < s.drop_first().len() implies (#[trigger] s.drop_first()[k]) as u32 <= 0x7F by {
            assert(s.drop_first()[k] == s[k + 1]);
        }
        lemma_encode_ascii_len(s.drop_first());
    }
}

/// A bounded segment is a valid UTF-8 text of at most `max_bytes` bytes.
proof fn lemma_bounded_segment(value: Seq<char>, max_bytes: nat)
    ensures
        spec_bounded_segment_bytes(value, max_bytes).len() <= max_bytes,
        encode_utf8(decode_utf8(spec_bounded_segment_bytes(value, max_bytes))) == spec_bounded_segment_bytes(
            value,
            max_bytes,
        ),
        decode_utf8(spec_bounded_segment_bytes(value, max_bytes)).is_prefix_of(spec_sanitize_file_segment(value)),
{
    broadcast use vstd::utf8::encode_utf8_valid_utf8, vstd::utf8::encode_utf8_decode_utf8;

    let sanitized = spec_sanitize_file_segment(value);
    let b = encode_utf8(sanitized);
    if b.len() <= max_bytes {
        vstd::utf8::decode_utf8_encode_utf8(b);
        assert(sanitized.subrange(0, sanitized.len() as int) =~= sanitized);
    } else {
        let c = char_boundary_at_most(b, max_bytes as int);
        lemma_char_boundary_at_most(b, max_bytes as int);
        vstd::utf8::valid_utf8_split(b, c);
        assert(b.take(c) =~= b.subrange(0, c));
        vstd::utf8::decode_utf8_encode_utf8(b.subrange(0, c));
        vstd::utf8::decode_utf8_split(b, c);
        assert(decode_utf8(b) == sanitized);
    }
}

pub open spec fn has_no_separator(s: Seq<char>) -> bool {
    forall|k: int| 0 <= k < s.len() ==> (#[trigger] s[k]) != '/' && s[k] != '\\'
}

proof fn lemma_trim_keeps_no_separator(s: Seq<char>)
    requires
        has_no_separator(s),
    ensures
        has_no_separator(trim_chars(s)),
        has_no_separator(trim_end_dots_and_spaces(s)),
{
    lemma_trim_start_keeps(s);
    lemma_trim_end_keeps(crate::text::trim_start_chars(s));
    lemma_trim_dots_keeps(s);
}

proof fn lemma_trim_start_keeps(s: Seq<char>)
    requires
        has_no_separator(s),
    ensures
        has_no_separator(crate::text::trim_start_chars(s)),
    decreases s.len(),
{
    if s.len() > 0 && crate::text::is_unicode_white_space(s[0]) {
        assert forall|k: int| 0 <= k < s.drop_first().len() implies (#[trigger] s.drop_first()[k]) != '/'
            && s.drop_first()[k] != '\\' by {
            assert(s.drop_first()[k] == s[k + 1]);
        }
        lemma_trim_start_keeps(s.drop_first());
    }
}

proof fn lemma_trim_end_keeps(s: Seq<char>)
    requires
        has_no_separator(s),
    ensures
        has_no_separator(crate::text::trim_end_chars(s)),
    decreases s.len(),
{
    if s.len() > 0 && crate::text::is_unicode_white_space(s.last()) {
        assert forall|k: int| 0 <= k < s.drop_last().len() implies (#[trigger] s.drop_last()[k]) != '/'
            && s.drop_last()[k] != '\\' by {
            assert(s.drop_last()[k] == s[k]);
        }
        lemma_trim_end_keeps(s.drop_last());
    }
}

proof fn lemma_trim_dots_keeps(s: Seq<char>)
    requires
        has_no_separator(s),
    ensures
        has_no_separator(trim_end_dots_and_spaces(s)),
    decreases s.len(),
{
    if s.len() > 0 && (s.last() == '.' || s.last() == ' ') {
        assert forall|k: int| 0 <= k < s.drop_last().len() implies (#[trigger] s.drop_last()[k]) != '/'
            && s.drop_last()[k] != '\\' by {
            assert(s.drop_last()[k] == s[k]);
        }
        lemma_trim_dots_keeps(s.drop_last());
    }
}

/// A sanitized segment has no path separator.
proof fn lemma_sanitized_has_no_separator(v: Seq<char>)
    ensures
        has_no_separator(spec_sanitize_file_segment(v)),
{
    let m = v.map_values(|c: char| sanitized_char(c));
    assert(has_no_separator(m));
    lemma_trim_keeps_no_separator(m);
    lemma_trim_keeps_no_separator(trim_chars(m));
    reveal_strlit("database");
}

/// Each bounded segment of a name has no path separator.
proof fn lemma_bounded_segment_has_no_separator(value: Seq<char>, max_bytes: nat)
    ensures
        has_no_separator(decode_utf8(spec_bounded_segment_bytes(value, max_bytes))),
{
    lemma_bounded_segment(value, max_bytes);
    lemma_sanitized_has_no_separator(value);
    let d = decode_utf8(spec_bounded_segment_bytes(value, max_bytes));
    let full = spec_sanitize_file_segment(value);
    assert forall|k: int| 0 <= k < d.len() implies (#[trigger] d[k]) != '/' && d[k] != '\\' by {
        assert(d[k] == full[k]);
    }
}

/// A stamp of at most 18 stamp characters.
pub open spec fn is_compact_stamp(stamp: Seq<char>) -> bool {
    stamp.len() <= 18 && forall|k: int| 0 <= k < stamp.len() ==> is_stamp_char(#[trigger] stamp[k])
}

/// A backup file name fits in the 255 bytes that a file name may take,
/// whatever the schedule name, file stem and run id.
pub proof fn law_backup_file_name_fits(
    schedule_name: Seq<char>,
    file_stem: Seq<char>,
    stamp: Seq<char>,
    run_id: Seq<char>,
)
    requires
        is_compact_stamp(stamp),
    ensures
        encode_utf8(spec_backup_file_name(schedule_name, file_stem, stamp, run_id)).len() <= 255,
{
    reveal_strlit("dbx-backup__");
    reveal_strlit("__");
    reveal_strlit(".sql");
    let p = "dbx-backup__"@;
    let u = "__"@;
    let e = ".sql"@;
    let a = decode_utf8(spec_bounded_segment_bytes(schedule_name, BACKUP_NAME_SEGMENT_MAX_BYTES as nat));
    let b = decode_utf8(spec_bounded_segment_bytes(file_stem, BACKUP_NAME_SEGMENT_MAX_BYTES as nat));
    let c = decode_utf8(spec_bounded_segment_bytes(run_id, BACKUP_RUN_ID_SEGMENT_MAX_BYTES as nat));
    lemma_bounded_segment(schedule_name, BACKUP_NAME_SEGMENT_MAX_BYTES as nat);
    lemma_bounded_segment(file_stem, BACKUP_NAME_SEGMENT_MAX_BYTES as nat);
    lemma_bounded_segment(run_id, BACKUP_RUN_ID_SEGMENT_MAX_BYTES as nat);
    lemma_encode_ascii_len(p);
    lemma_encode_ascii_len(u);
    lemma_encode_ascii_len(e);
    lemma_encode_ascii_len(stamp);
    lemma_encode_utf8_concat(p, a);
    lemma_encode_utf8_concat(p + a, u);
    lemma_encode_utf8_concat(p + a + u, stamp);
    lemma_encode_utf8_concat(p + a + u + stamp, u);
    lemma_encode_utf8_concat(p + a + u + stamp + u, b);
    lemma_encode_utf8_concat(p + a + u + stamp + u + b, u);
    lemma_encode_utf8_concat(p + a + u + stamp + u + b + u, c);
    lemma_encode_utf8_concat(p + a + u + stamp + u + b + u + c, e);
}

proof fn lemma_no_char_last_index(s: Seq<char>, c: char)
    requires
        forall|k: int| 0 <= k < s.len() ==> (#[trigger] s[k]) != c,
    ensures
        last_index_of(s, c) == -1,
{
    lemma_last_index_of(s, c);
}

/// A backup file name is a single managed `.sql` file name under the
/// backup root, whatever the schedule name, file stem and run id.
pub proof fn law_backup_file_name_is_managed(
    schedule_name: Seq<char>,
    file_stem: Seq<char>,
    stamp: Seq<char>,
    run_id: Seq<char>,
)
    requires
        is_compact_stamp(stamp),
    ensures
        is_managed_backup_name(spec_backup_file_name(schedule_name, file_stem, stamp, run_id)),
{
    reveal_strlit("dbx-backup__");
    reveal_strlit("__");
    reveal_strlit(".sql");
    let name = spec_backup_file_name(schedule_name, file_stem, stamp, run_id);
    let p = "dbx-backup__"@;
    let u = "__"@;
    let e = ".sql"@;
    let a = decode_utf8(spec_bounded_segment_bytes(schedule_name, BACKUP_NAME_SEGMENT_MAX_BYTES as nat));
    let b = decode_utf8(spec_bounded_segment_bytes(file_stem, BACKUP_NAME_SEGMENT_MAX_BYTES as nat));
    let c = decode_utf8(spec_bounded_segment_bytes(run_id, BACKUP_RUN_ID_SEGMENT_MAX_BYTES as nat));
    lemma_bounded_segment_has_no_separator(schedule_name, BACKUP_NAME_SEGMENT_MAX_BYTES as nat);
    lemma_bounded_segment_has_no_separator(file_stem, BACKUP_NAME_SEGMENT_MAX_BYTES as nat);
    lemma_bounded_segment_has_no_separator(run_id, BACKUP_RUN_ID_SEGMENT_MAX_BYTES as nat);
    assert(name == p + a + u + stamp + u + b + u + c + e);
    let n = name.len();
    assert(n >= 16);
    assert(has_no_separator(name)) by {
        assert forall|k: int| 0 <= k < n implies (#[trigger] name[k]) != '/' && name[k] != '\\' by {
            let l1 = p.len();
            let l2 = l1 + a.len();
            let l3 = l2 + u.len();
            let l4 = l3 + stamp.len();
            let l5 = l4 + u.len();
            let l6 = l5 + b.len();
            let l7 = l6 + u.len();
            let l8 = l7 + c.len();
            if k < l1 {
                assert(name[k] == p[k]);
            } else if k < l2 {
                assert(name[k] == a[k - l1]);
            } else if k < l3 {
                assert(name[k] == u[k - l2]);
            } else if k < l4 {
                assert(name[k] == stamp[k - l3]);
                assert(is_stamp_char(stamp[k - l3]));
            } else if k < l5 {
                assert(name[k] == u[k - l4]);
            } else if k < l6 {
                assert(name[k] == b[k - l5]);
            } else if k < l7 {
                assert(name[k] == u[k - l6]);
            } else if k < l8 {
                assert(name[k] == c[k - l7]);
            } else {
                assert(name[k] == e[k - l8]);
            }
        }
    }
    assert(name[0] == 'd');
    assert(name[n - 4] == '.' && name[n - 3] == 's' && name[n - 2] == 'q' && name[n - 1] == 'l');
    lemma_no_char_last_index(name, '/');
    assert(name.subrange(0, n as int) =~= name);
    assert(normal_parts(name) == seq![name]);
    assert(!has_root(name));
    assert(!has_leading_cur_dir(name));
    assert(spec_component_count(name) == 1);
    assert(spec_path_file_name(name) == Some(name));
    assert(last_index_of(name, '.') == n - 4) by {
        let d1 = name.drop_last();
        let d2 = d1.drop_last();
        let d3 = d2.drop_last();
        assert(d1.last() == name[n - 2]);
        assert(d2.last() == name[n - 3]);
        assert(d3.last() == name[n - 4]);
        assert(last_index_of(d3, '.') == n - 4);
        assert(last_index_of(d2, '.') == last_index_of(d3, '.'));
        assert(last_index_of(d1, '.') == last_index_of(d2, '.'));
        assert(last_index_of(name, '.') == last_index_of(d1, '.'));
    }
    assert(name.subrange(n - 3, n as int) =~= seq!['s', 'q', 'l']);
    assert(spec_path_extension(name) == Some(seq!['s', 'q', 'l']));
    assert(name.subrange(0, 12) =~= managed_backup_prefix());
}

/// A character that a file name may hold everywhere: no control code (Cc:
/// U+0000 to U+001F and U+007F to U+009F) and none of `\ / : * ? " < > |`.
pub open spec fn is_safe_file_char(c: char) -> bool {
    let u = c as u32;
    &&& !(u <= 0x1F || (0x7F <= u && u <= 0x9F))
    &&& c != '\\' && c != '/' && c != ':' && c != '*' && c != '?'
    &&& c != '"' && c != '<' && c != '>' && c != '|'
}

pub open spec fn all_safe_file_chars(s: Seq<char>) -> bool {
    forall|k: int| 0 <= k < s.len() ==> is_safe_file_char(#[trigger] s[k])
}

proof fn lemma_safe_drop_first(s: Seq<char>)
    requires
        s.len() > 0,
        all_safe_file_chars(s),
    ensures
        all_safe_file_chars(s.drop_first()),
{
    assert forall|k: int| 0 <= k < s.drop_first().len() implies is_safe_file_char(#[trigger] s.drop_first()[k]) by {
        assert(s.drop_first()[k] == s[k + 1]);
    }
}

proof fn lemma_safe_drop_last(s: Seq<char>)
    requires
        s.len() > 0,
        all_safe_file_chars(s),
    ensures
        all_safe_file_chars(s.drop_last()),
{
    assert forall|k: int| 0 <= k < s.drop_last().len() implies is_safe_file_char(#[trigger] s.drop_last()[k]) by {
        assert(s.drop_last()[k] == s[k]);
    }
}

proof fn lemma_safe_trim_start(s: Seq<char>)
    requires
        all_safe_file_chars(s),
    ensures
        all_safe_file_chars(crate::text::trim_start_chars(s)),
    decreases s.len(),
{
    if s.len() > 0 && crate::text::is_unicode_white_space(s[0]) {
        lemma_safe_drop_first(s);
        lemma_safe_trim_start(s.drop_first());
    }
}

proof fn lemma_safe_trim_end(s: Seq<char>)
    requires
        all_safe_file_chars(s),
    ensures
        all_safe_file_chars(crate::text::trim_end_chars(s)),
    decreases s.len(),
{
    if s.len() > 0 && crate::text::is_unicode_white_space(s.last()) {
        lemma_safe_drop_last(s);
        lemma_safe_trim_end(s.drop_last());
    }
}

proof fn lemma_safe_trim_dots(s: Seq<char>)
    requires
        all_safe_file_chars(s),
    ensures
        all_safe_file_chars(trim_end_dots_and_spaces(s)),
    decreases s.len(),
{
    if s.len() > 0 && (s.last() == '.' || s.last() == ' ') {
        lemma_safe_drop_last(s);
        lemma_safe_trim_dots(s.drop_last());
    }
}

/// A sanitized file name segment holds no control code and none of the
/// characters that file systems refuse, whatever text it was made from.
pub proof fn law_sanitized_segment_is_safe(v: Seq<char>)
    ensures
        all_safe_file_chars(spec_sanitize_file_segment(v)),
{
    let m = v.map_values(|c: char| sanitized_char(c));
    assert forall|k: int| 0 <= k < m.len() implies is_safe_file_char(#[trigger] m[k]) by {
        assert(m[k] == sanitized_char(v[k]));
    }
    lemma_safe_trim_start(m);
    lemma_safe_trim_end(crate::text::trim_start_chars(m));
    lemma_safe_trim_dots(trim_chars(m));
    reveal_strlit("database");
}

proof fn lemma_bounded_segment_is_safe(value: Seq<char>, max_bytes: nat)
    ensures
        all_safe_file_chars(decode_utf8(spec_bounded_segment_bytes(value, max_bytes))),
{
    lemma_bounded_segment(value, max_bytes);
    law_sanitized_segment_is_safe(value);
    let d = decode_utf8(spec_bounded_segment_bytes(value, max_bytes));
    let full = spec_sanitize_file_segment(value);
    assert forall|k: int| 0 <= k < d.len() implies is_safe_file_char(#[trigger] d[k]) by {
        assert(d[k] == full[k]);
    }
}

/// Every character of a backup file name is one that file systems accept
/// (no control code, none of `\ / : * ? " < > |`), whatever the schedule
/// name, file stem and run id: their unsafe characters were replaced.
pub proof fn law_backup_file_name_is_safe(
    schedule_name: Seq<char>,
    file_stem: Seq<char>,
    stamp: Seq<char>,
    run_id: Seq<char>,
)
    requires
        is_compact_stamp(stamp),
    ensures
        all_safe_file_chars(spec_backup_file_name(schedule_name, file_stem, stamp, run_id)),
{
    reveal_strlit("dbx-backup__");
    reveal_strlit("__");
    reveal_strlit(".sql");
    let name = spec_backup_file_name(schedule_name, file_stem, stamp, run_id);
    let p = "dbx-backup__"@;
    let u = "__"@;
    let e = ".sql"@;
    let a = decode_utf8(spec_bounded_segment_bytes(schedule_name, BACKUP_NAME_SEGMENT_MAX_BYTES as nat));
    let b = decode_utf8(spec_bounded_segment_bytes(file_stem, BACKUP_NAME_SEGMENT_MAX_BYTES as nat));
    let c = decode_utf8(spec_bounded_segment_bytes(run_id, BACKUP_RUN_ID_SEGMENT_MAX_BYTES as nat));
    lemma_bounded_segment_is_safe(schedule_name, BACKUP_NAME_SEGMENT_MAX_BYTES as nat);
    lemma_bounded_segment_is_safe(file_stem, BACKUP_NAME_SEGMENT_MAX_BYTES as nat);
    lemma_bounded_segment_is_safe(run_id, BACKUP_RUN_ID_SEGMENT_MAX_BYTES as nat);
    assert(name == p + a + u + stamp + u + b + u + c + e);
    assert forall|k: int| 0 <= k < name.len() implies is_safe_file_char(#[trigger] name[k]) by {
        let l1 = p.len();
        let l2 = l1 + a.len();
        let l3 = l2 + u.len();
        let l4 = l3 + stamp.len();
        let l5 = l4 + u.len();
        let l6 = l5 + b.len();
        let l7 = l6 + u.len();
        let l8 = l7 + c.len();
        if k < l1 {
            assert(name[k] == p[k]);
        } else if k < l2 {
            assert(name[k] == a[k - l1]);
        } else if k < l3 {
            assert(name[k] == u[k - l2]);
        } else if k < l4 {
            assert(name[k] == stamp[k - l3]);
            assert(is_stamp_char(stamp[k - l3]));
        } else if k < l5 {
            assert(name[k] == u[k - l4]);
        } else if k < l6 {
            assert(name[k] == b[k - l5]);
        } else if k < l7 {
            assert(name[k] == u[k - l6]);
        } else if k < l8 {
            assert(name[k] == c[k - l7]);
        } else {
            assert(name[k] == e[k - l8]);
        }
    }
}

} // verus!
