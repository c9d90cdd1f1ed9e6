//! Unix path components, and the file names that the server accepts.
use vstd::prelude::*;
use std::path::Path;

use crate::text::{chars_of, chars_to_string, string_option_view, trim_chars, trimmed};

verus! {

broadcast use vstd::string::group_string_axioms;

/// Position of the last `c` in `s`, or -1.
pub open spec fn last_index_of(s: Seq<char>, c: char) -> int
    decreases s.len(),
{
    if s.len() == 0 {
        -1
    } else if s.last() == c {
        s.len() - 1
    } else {
        last_index_of(s.drop_last(), c)
    }
}

pub proof fn lemma_last_index_of(s: Seq<char>, c: char)
    ensures
        -1 <= last_index_of(s, c) < s.len(),
        last_index_of(s, c) >= 0 ==> s[last_index_of(s, c)] == c,
        forall|k: int| last_index_of(s, c) < k < s.len() ==> #[trigger] s[k] != c,
    decreases s.len(),
{
    if s.len() > 0 && s.last() != c {
        lemma_last_index_of(s.drop_last(), c);
        assert forall|k: int| last_index_of(s, c) < k < s.len() implies #[trigger] s[k] != c by {
            if k < s.len() - 1 {
                assert(s[k] == s.drop_last()[k]);
            }
        }
    }
}

/// The normal components of a Unix path: its segments between `/`, without
/// empty segments and without `.`.
pub open spec fn normal_parts(s: Seq<char>) -> Seq<Seq<char>>
    decreases s.len(),
{
    if s.len() == 0 {
        Seq::empty()
    } else {
        proof {
            lemma_last_index_of(s, '/');
        }
        let k = last_index_of(s, '/');
        let tail = s.subrange(k + 1, s.len() as int);
        let prev = if k < 0 {
            Seq::empty()
        } else {
            normal_parts(s.subrange(0, k))
        };
        if tail.len() == 0 || tail == seq!['.'] {
            prev
        } else {
            prev.push(tail)
        }
    }
}

pub open spec fn has_root(s: Seq<char>) -> bool {
    s.len() > 0 && s[0] == '/'
}

pub open spec fn has_leading_cur_dir(s: Seq<char>) -> bool {
    s == seq!['.'] || (s.len() >= 2 && s[0] == '.' && s[1] == '/')
}

/// The number of components that `Path::components` yields for a Unix path:
/// the root, a leading `.`, and the normal components.
pub open spec fn spec_component_count(s: Seq<char>) -> nat {
    (if has_root(s) {
        1nat
    } else {
        0nat
    }) + (if has_leading_cur_dir(s) {
        1nat
    } else {
        0nat
    }) + normal_parts(s).len()
}

/// The final component of a Unix path when it is a normal one (not `..`).
pub open spec fn spec_path_file_name(s: Seq<char>) -> Option<Seq<char>> {
    let parts = normal_parts(s);
    if parts.len() > 0 && parts.last() != seq!['.', '.'] {
        Some(parts.last())
    } else {
        None
    }
}

/// The extension of a file name: the text after its last `.`, unless that
/// `.` begins the name.
pub open spec fn spec_name_extension(name: Seq<char>) -> Option<Seq<char>> {
    let i = last_index_of(name, '.');
    if name == seq!['.', '.'] || i <= 0 {
        None
    } else {
        Some(name.subrange(i + 1, name.len() as int))
    }
}

pub open spec fn spec_path_extension(s: Seq<char>) -> Option<Seq<char>> {
    match spec_path_file_name(s) {
        Some(name) => spec_name_extension(name),
        None => None,
    }
}

/// `Path::file_name` of the Unix path `path`, as an owned string.
#[verifier::external_body]
pub(crate) fn path_file_name(path: &str) -> (r: Option<String>)
    ensures
        string_option_view(r) == spec_path_file_name(path@),
{
    match Path::new(path).file_name() {
        Some(name) => name.to_str().map(|name| name.to_owned()),
        None => None,
    }
}

/// `Path::is_absolute` of the Unix path `path`: whether it starts at the root.
#[verifier::external_body]
pub(crate) fn path_is_absolute(path: &str) -> (r: bool)
    ensures
        r == has_root(path@),
{
    Path::new(path).is_absolute()
}

/// `Path::components` of the Unix path `path`, counted.
#[verifier::external_body]
pub(crate) fn path_component_count(path: &str) -> (r: usize)
    ensures
        r == spec_component_count(path@),
{
    Path::new(path).components().count()
}

/// `Path::extension` of the Unix path `path`, as an owned string.
#[verifier::external_body]
pub(crate) fn path_extension(path: &str) -> (r: Option<String>)
    ensures
        string_option_view(r) == spec_path_extension(path@),
{
    match Path::new(path).extension() {
        Some(extension) => extension.to_str().map(|extension| extension.to_owned()),
        None => None,
    }
}

/// Joining a Unix path onto another: an absolute `relative` replaces `root`;
/// otherwise a `/` separates the two unless `root` is empty or already ends
/// in one.
pub open spec fn spec_path_join(root: Seq<char>, relative: Seq<char>) -> Seq<char> {
    if has_root(relative) {
        relative
    } else if root.len() == 0 || root.last() == '/' {
        root + relative
    } else {
        root + seq!['/'] + relative
    }
}

/// `Path::join` of two Unix paths, as text. Both arguments are UTF-8, so the
/// joined path converts back without loss; the claim is that the join is
/// `spec_path_join`, which is what `PathBuf::push` does on Unix.
#[verifier::external_body]
pub(crate) fn path_join(root: &str, relative: &str) -> (r: String)
    ensures
        r@ == spec_path_join(root@, relative@),
{
    Path::new(root).join(relative).to_string_lossy().into_owned()
}

pub open spec fn managed_backup_prefix() -> Seq<char> {
    "dbx-backup__"@
}

/// A managed backup file is a single relative `.sql` file name that starts
/// with the managed prefix.
pub open spec fn is_managed_backup_name(s: Seq<char>) -> bool {
    &&& !has_root(s)
    &&& spec_component_count(s) == 1
    &&& spec_path_extension(s) == Some(seq!['s', 'q', 'l'])
    &&& s.len() >= managed_backup_prefix().len()
    &&& s.subrange(0, managed_backup_prefix().len() as int) == managed_backup_prefix()
}

fn starts_with_chars(s: &Vec<char>, prefix: &Vec<char>) -> (r: bool)
    ensures
        r == (s@.len() >= prefix@.len() && s@.subrange(0, prefix@.len() as int) == prefix@),
{
    if s.len() < prefix.len() {
        return false;
    }
    let mut k: usize = 0;
    while k < prefix.len()
        invariant
            k <= prefix.len() <= s.len(),
            forall|m: int| 0 <= m < k ==> s@[m] == prefix@[m],
        decreases prefix.len() - k,
    {
        if s[k] != prefix[k] {
            assert(s@.subrange(0, prefix@.len() as int)[k as int] != prefix@[k as int]);
            return false;
        }
        k += 1;
    }
    assert(s@.subrange(0, prefix@.len() as int) =~= prefix@);
    true
}

/// Whether `relative_path` names a managed backup file.
pub fn is_managed_backup_file_name(relative_path: &str) -> (r: bool)
    ensures
        r == is_managed_backup_name(relative_path@),
{
    if path_is_absolute(relative_path) || path_component_count(relative_path) != 1 {
        return false;
    }
    match path_extension(relative_path) {
        Some(extension) => {
            let chars = chars_of(extension.as_str());
            if !(chars.len() == 3 && chars[0] == 's' && chars[1] == 'q' && chars[2] == 'l') {
                proof {
                    if extension@ == seq!['s', 'q', 'l'] {
                        assert(chars@[0] == 's' && chars@[1] == 'q' && chars@[2] == 'l');
                    }
                }
                return false;
            }
            assert(chars@ =~= seq!['s', 'q', 'l']);
        },
        None => {
            return false;
        },
    }
    let prefix = chars_of("dbx-backup__");
    starts_with_chars(&chars_of(relative_path), &prefix)
}

/// The file of a backup run under `root`, for a name that the server made.
pub fn managed_backup_file_path(root: &str, relative_path: &str) -> (r: Result<String, String>)
    ensures
        r is Ok <==> is_managed_backup_name(relative_path@),
        r matches Ok(p) ==> p@ == spec_path_join(root@, relative_path@),
        r matches Err(e) ==> e@ == "Invalid managed backup file path"@,
{
    if !is_managed_backup_file_name(relative_path) {
        return Err("Invalid managed backup file path".to_owned());
    }
    Ok(path_join(root, relative_path))
}

/// The last nonempty segment of `s` between `/` and `\` separators.
pub open spec fn last_upload_segment(s: Seq<char>) -> Option<Seq<char>>
    decreases s.len(),
{
    if s.len() == 0 {
        None
    } else {
        proof {
            lemma_last_separator(s);
        }
        let i = last_separator(s);
        let tail = s.subrange(i + 1, s.len() as int);
        if tail.len() > 0 {
            Some(tail)
        } else if i < 0 {
            None
        } else {
            last_upload_segment(s.subrange(0, i))
        }
    }
}

pub open spec fn is_upload_separator(c: char) -> bool {
    c == '/' || c == '\\'
}

/// Position of the last `/` or `\` in `s`, or -1.
pub open spec fn last_separator(s: Seq<char>) -> int
    decreases s.len(),
{
    if s.len() == 0 {
        -1
    } else if is_upload_separator(s.last()) {
        s.len() - 1
    } else {
        last_separator(s.drop_last())
    }
}

/// The name under which an uploaded SQL file is stored: the last segment of
/// the client's file name (or `upload.sql`), trimmed; `.`, `..` and empty
/// names are refused.
pub open spec fn spec_uploaded_sql_base_name(file_name: Seq<char>) -> Result<Seq<char>, Seq<char>> {
    let base = trim_chars(
        match last_upload_segment(file_name) {
            Some(seg) => seg,
            None => "upload.sql"@,
        },
    );
    if base.len() == 0 || base == seq!['.'] || base == seq!['.', '.'] {
        Err("Invalid SQL file name"@)
    } else {
        Ok(base)
    }
}

/// Position of the last separator in `v[0..end]`.
fn last_separator_before(v: &Vec<char>, end: usize) -> (r: Option<usize>)
    requires
        end <= v@.len(),
    ensures
        match r {
            Some(i) => last_separator(v@.subrange(0, end as int)) == i as int,
            None => last_separator(v@.subrange(0, end as int)) == -1,
        },
{
    let mut k = end;
    while k > 0
        invariant
            k <= end <= v@.len(),
            last_separator(v@.subrange(0, end as int)) == last_separator(v@.subrange(0, k as int)),
        decreases k,
    {
        let ghost t = v@.subrange(0, k as int);
        assert(t.last() == v@[k - 1]);
        assert(t.drop_last() =~= v@.subrange(0, k - 1));
        if v[k - 1] == '/' || v[k - 1] == '\\' {
            return Some(k - 1);
        }
        k -= 1;
    }
    None
}

/// The storage name of an uploaded SQL file, or why it is refused.
pub fn uploaded_sql_base_name(file_name: &str) -> (r: Result<String, String>)
    ensures
        match spec_uploaded_sql_base_name(file_name@) {
            Ok(n) => r matches Ok(s) && s@ == n,
            Err(m) => r matches Err(e) && e@ == m,
        },
{
    let chars = chars_of(file_name);
    let ghost s = chars@;
    let mut end = chars.len();
    let mut segment: Option<String> = None;
    assert(s.subrange(0, end as int) =~= s);
    loop
        invariant_except_break
            end <= chars@.len(),
            s == chars@,
            segment is None,
            last_upload_segment(s) == last_upload_segment(s.subrange(0, end as int)),
        ensures
            string_option_view(segment) == last_upload_segment(s),
        decreases end,
    {
        if end == 0 {
            break;
        }
        let ghost prefix = s.subrange(0, end as int);
        match last_separator_before(&chars, end) {
            Some(i) => {
                proof {
                    lemma_last_separator(prefix);
                    assert(prefix.subrange(0, i as int) =~= s.subrange(0, i as int));
                    assert(prefix.subrange(i + 1, end as int) =~= s.subrange(i + 1, end as int));
                }
                if i + 1 < end {
                    segment = Some(chars_to_string(&chars, i + 1, end));
                    break;
                }
                end = i;
            },
            None => {
                proof {
                    assert(prefix.subrange(0, end as int) =~= prefix);
                }
                segment = Some(chars_to_string(&chars, 0, end));
                break;
            },
        }
    }
    let base = match segment {
        Some(seg) => trimmed(seg.as_str()),
        None => trimmed("upload.sql"),
    };
    let b = chars_of(base.as_str());
    if b.len() == 0 || (b.len() == 1 && b[0] == '.') || (b.len() == 2 && b[0] == '.' && b[1] == '.') {
        proof {
            if b.len() == 1 {
                assert(b@ =~= seq!['.']);
            }
            if b.len() == 2 {
                assert(b@ =~= seq!['.', '.']);
            }
        }
        return Err("Invalid SQL file name".to_owned());
    }
    proof {
        if base@ == seq!['.'] {
            assert(b@[0] == '.');
        }
        if base@ == seq!['.', '.'] {
            assert(b@[0] == '.' && b@[1] == '.');
        }
    }
    Ok(base)
}

pub proof fn lemma_last_separator(s: Seq<char>)
    ensures
        -1 <= last_separator(s) < s.len(),
        last_separator(s) >= 0 ==> is_upload_separator(s[last_separator(s)]),
    decreases s.len(),
{
    if s.len() > 0 && !is_upload_separator(s.last()) {
        lemma_last_separator(s.drop_last());
    }
}

/// Where an uploaded SQL file is stored: under `tmp_dir`, by the name that
/// [`uploaded_sql_base_name`] gives.
pub fn safe_uploaded_sql_path(tmp_dir: &str, file_name: &str) -> (r: Result<String, String>)
    ensures
        match spec_uploaded_sql_base_name(file_name@) {
            Ok(base) => r matches Ok(p) && p@ == spec_path_join(tmp_dir@, base),
            Err(m) => r matches Err(e) && e@ == m,
        },
{
    let base = uploaded_sql_base_name(file_name)?;
    Ok(path_join(tmp_dir, base.as_str()))
}

/// The components of a Unix path, as `Path::components` yields them: the
/// root as `/`, a leading `.`, then the normal parts (with `..`).
pub open spec fn spec_components(s: Seq<char>) -> Seq<Seq<char>> {
    (if has_root(s) {
        seq![seq!['/']]
    } else {
        Seq::empty()
    }) + (if has_leading_cur_dir(s) {
        seq![seq!['.']]
    } else {
        Seq::empty()
    }) + normal_parts(s)
}

/// `Path::starts_with`: whether the components of `base` begin those of
/// `path`.
#[verifier::external_body]
fn path_starts_with(path: &str, base: &str) -> (r: bool)
    ensures
        r == spec_components(base@).is_prefix_of(spec_components(path@)),
{
    Path::new(path).starts_with(base)
}

/// A SQL file to execute must be named by an absolute path.
pub fn uploaded_path_error(file_path: &str) -> (r: Option<String>)
    ensures
        has_root(file_path@) ==> r is None,
        !has_root(file_path@) ==> (r matches Some(m) && m@ == "File path must be absolute"@),
{
    if path_is_absolute(file_path) {
        None
    } else {
        Some("File path must be absolute".to_owned())
    }
}

/// A SQL file to execute must lie under the directory of uploaded files;
/// both paths are canonical.
pub fn uploaded_location_error(canonical_path: &str, canonical_tmp_dir: &str) -> (r: Option<String>)
    ensures
        spec_components(canonical_tmp_dir@).is_prefix_of(spec_components(canonical_path@)) ==> r is None,
        !spec_components(canonical_tmp_dir@).is_prefix_of(spec_components(canonical_path@)) ==> (r matches Some(
            m,
        ) && m@ == "File path must be inside the uploaded SQL directory"@),
{
    if path_starts_with(canonical_path, canonical_tmp_dir) {
        None
    } else {
        Some("File path must be inside the uploaded SQL directory".to_owned())
    }
}

} // verus!
