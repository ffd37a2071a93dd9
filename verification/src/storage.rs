//! The application's data directory: file names of stored documents, the
//! listing of custom skills and of saved gaokao tables, and the types of the
//! file dialog.
use vstd::prelude::*;
use vstd::string::StringExecFns;
use crate::text::{
    append_chars, chars_of, lines, lines_of, seqs_of, starts_with, string_of, sub_vec, trim,
    trim_chars,
};

verus! {

/// A filter of the file dialog.
#[derive(Debug, Clone)]
pub struct FileFilter {
    pub name: String,
    pub extensions: Vec<String>,
}

/// The file that the file dialog returns.
#[derive(Debug, Clone)]
#[allow(non_snake_case)]
pub struct FileDialogResult {
    pub filePath: String,
}

/// The name of the file that stores `stem` with extension `ext`.
pub fn file_name_with_extension(stem: &str, ext: &str) -> (r: String)
    ensures
        r@ == stem@ + "."@ + ext@,
{
    let mut s = String::from_str(stem);
    s.append(".");
    s.append(ext);
    s
}

/// Position of the last `.` in `s`.
pub open spec fn last_dot(s: Seq<char>) -> Option<int>
    decreases s.len(),
{
    if s.len() == 0 {
        None
    } else if s.last() == '.' {
        Some(s.len() - 1)
    } else {
        last_dot(s.drop_last())
    }
}

/// The stem and extension of file name `name`, as `Path::file_stem` and
/// `Path::extension` give them: the name splits at its last `.`, except that
/// `..`, a name without a dot, and a name whose only dot is its first
/// character have no extension.
pub open spec fn stem_and_extension(name: Seq<char>) -> (Seq<char>, Option<Seq<char>>) {
    if name == ".."@ {
        (name, None)
    } else {
        match last_dot(name) {
            None => (name, None),
            Some(k) => if k == 0 {
                (name, None)
            } else {
                (name.take(k), Some(name.skip(k + 1)))
            },
        }
    }
}

/// Splits file name `name` into its stem and extension.
pub fn split_file_name(name: &str) -> (r: (String, Option<String>))
    ensures
        r.0@ == stem_and_extension(name@).0,
        match r.1 {
            Some(e) => stem_and_extension(name@).1 == Some(e@),
            None => stem_and_extension(name@).1 is None,
        },
{
    let c = chars_of(name);
    let dots = chars_of("..");
    if crate::text::chars_eq(c.as_slice(), dots.as_slice()) {
        return (string_of(c.as_slice()), None);
    }
    let mut i = c.len();
    assert(c@.take(i as int) =~= c@);
    while i > 0 && c[i - 1] != '.'
        invariant
            i <= c@.len(),
            last_dot(c@) == last_dot(c@.take(i as int)),
        decreases i,
    {
        assert(c@.take(i as int).drop_last() =~= c@.take(i - 1));
        i = i - 1;
    }
    if i == 0 {
        assert(c@.take(0) =~= Seq::<char>::empty());
        return (string_of(c.as_slice()), None);
    }
    assert(last_dot(c@.take(i as int)) == Some(i - 1));
    if i == 1 {
        return (string_of(c.as_slice()), None);
    }
    let stem = sub_vec(c.as_slice(), 0, i - 1);
    let ext = sub_vec(c.as_slice(), i, c.len());
    assert(stem@ =~= c@.take(i - 1));
    assert(ext@ =~= c@.skip(i as int));
    (string_of(stem.as_slice()), Some(string_of(ext.as_slice())))
}

/// `s` without its leading `#` characters (`str::trim_start_matches('#')`).
pub open spec fn trim_start_hashes(s: Seq<char>) -> Seq<char>
    decreases s.len(),
{
    if s.len() > 0 && s[0] == '#' {
        trim_start_hashes(s.drop_first())
    } else {
        s
    }
}

/// Index of the first line among `ls[k..]` that starts with `#`.
pub open spec fn first_heading(ls: Seq<Seq<char>>, k: int) -> Option<int>
    decreases ls.len() - k,
{
    if k < 0 || k >= ls.len() {
        None
    } else if starts_with(ls[k], seq!['#']) {
        Some(k)
    } else {
        first_heading(ls, k + 1)
    }
}

/// The description of a skill: its first line that starts with `#`, without
/// the leading `#`s and trimmed; or the skill's id when it has no such line.
pub open spec fn skill_description_spec(content: Seq<char>, id: Seq<char>) -> Seq<char> {
    let ls = lines(content);
    match first_heading(ls, 0) {
        Some(k) => trim(trim_start_hashes(ls[k])),
        None => id,
    }
}

/// The description of the skill with id `id` whose file holds `content`.
pub fn skill_description(content: &str, id: &str) -> (r: String)
    ensures
        r@ == skill_description_spec(content@, id@),
{
    let c = chars_of(content);
    let ls = lines_of(c.as_slice());
    let ghost lv = seqs_of(ls@);
    let mut k: usize = 0;
    while k < ls.len()
        invariant
            0 <= k <= ls@.len(),
            lv == seqs_of(ls@),
            lv == lines(content@),
            first_heading(lv, 0) == first_heading(lv, k as int),
        decreases ls@.len() - k,
    {
        let line = &ls[k];
        assert(lv[k as int] == line@);
        if line.len() > 0 && line[0] == '#' {
            assert(starts_with(lv[k as int], seq!['#'])) by {
                assert(lv[k as int].take(1) =~= seq!['#']);
            }
            let mut j: usize = 0;
            assert(line@.skip(0) =~= line@);
            while j < line.len() && line[j] == '#'
                invariant
                    0 <= j <= line@.len(),
                    trim_start_hashes(line@) == trim_start_hashes(line@.skip(j as int)),
                decreases line@.len() - j,
            {
                assert(line@.skip(j as int).drop_first() =~= line@.skip(j + 1));
                j = j + 1;
            }
            let rest = sub_vec(line.as_slice(), j, line.len());
            assert(rest@ =~= line@.skip(j as int));
            let t = trim_chars(rest.as_slice());
            return string_of(t.as_slice());
        }
        assert(!starts_with(lv[k as int], seq!['#'])) by {
            if lv[k as int].len() >= 1 {
                assert(lv[k as int].take(1)[0] == line@[0]);
            }
        }
        k = k + 1;
    }
    String::from_str(id)
}

/// The listing entry of a saved gaokao table.
#[derive(Debug, Clone)]
pub struct GaokaoSummary {
    pub key: String,
    pub title: String,
    pub year: u64,
    pub province: String,
    pub count: usize,
}

/// The listing entry of the saved table `key`, from the `title`, `year`,
/// `province` and the length of `data` that its JSON holds, where present
/// with the right type: the title defaults to the key, the year and count to
/// 0, the province to empty.
pub fn gaokao_summary(
    key: &str,
    title: Option<String>,
    year: Option<u64>,
    province: Option<String>,
    count: Option<usize>,
) -> (r: GaokaoSummary)
    ensures
        r.key@ == key@,
        r.title@ == match title {
            Some(t) => t@,
            None => key@,
        },
        r.year == match year {
            Some(y) => y,
            None => 0,
        },
        r.province@ == match province {
            Some(p) => p@,
            None => Seq::<char>::empty(),
        },
        r.count == match count {
            Some(n) => n,
            None => 0,
        },
{
    GaokaoSummary {
        key: String::from_str(key),
        title: match title {
            Some(t) => t,
            None => String::from_str(key),
        },
        year: match year {
            Some(y) => y,
            None => 0,
        },
        province: match province {
            Some(p) => p,
            None => String::new(),
        },
        count: match count {
            Some(n) => n,
            None => 0,
        },
    }
}

} // verus!
