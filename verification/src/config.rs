//! Where the library keeps its database by default.
use vstd::prelude::*;

use crate::text::{chars_of, string_of};

verus! {

/// The library's configuration: the path of the Bible database.
#[derive(Debug)]
pub struct Config {
    pub db_path: String,
}

/// `t` occurs in `s` at position `i`.
pub open spec fn occurs_at(s: Seq<char>, t: Seq<char>, i: int) -> bool {
    0 <= i && i + t.len() <= s.len() && s.subrange(i, i + t.len()) == t
}

/// `s` ends with `t`.
pub open spec fn ends_with(s: Seq<char>, t: Seq<char>) -> bool {
    occurs_at(s, t, s.len() - t.len())
}

/// A single plain path component: not empty, not `.` or `..`, and free of
/// the characters that separate components or mark a drive.
pub open spec fn plain_component(part: Seq<char>) -> bool {
    &&& part.len() > 0
    &&& part != "."@
    &&& part != ".."@
    &&& forall|i: int| 0 <= i < part.len() ==> #[trigger] part[i] != '/' && part[i] != '\\'
        && part[i] != ':'
}

/// `base` starts like a Windows verbatim prefix (`\\?`), under which
/// joining a path rebuilds the path from its components.
pub open spec fn verbatim(base: Seq<char>) -> bool {
    base.len() >= 3 && base[0] == '\\' && base[1] == '\\' && base[2] == '?'
}

/// A path separator of some platform.
pub open spec fn separator(c: char) -> bool {
    c == '/' || c == '\\'
}

/// `path` is `base`, then at most one separator, then `part`.
pub open spec fn adjoined(path: Seq<char>, base: Seq<char>, part: Seq<char>) -> bool {
    &&& occurs_at(path, base, 0)
    &&& ends_with(path, part)
    &&& (path.len() == base.len() + part.len() || (path.len() == base.len() + part.len() + 1
        && separator(path[base.len() as int])))
}

/// Calls `dirs::data_local_dir` and gives the directory as text (a name
/// that is not valid UTF-8 is converted as `to_string_lossy` converts it).
/// Nothing is said of it: it depends on the platform and the environment,
/// and may be missing.
#[verifier::external_body]
fn data_local_dir() -> Option<String> {
    match dirs::data_local_dir() {
        Some(p) => Some(p.to_string_lossy().into_owned()),
        None => None,
    }
}

/// `path` ends with `part`, and a separator stands just before it.
pub open spec fn after_separator(path: Seq<char>, part: Seq<char>) -> bool {
    &&& ends_with(path, part)
    &&& path.len() > part.len()
    &&& separator(path[path.len() - part.len() - 1])
}

/// A component added to `base` goes after a new separator: `base` is not
/// empty and ends neither with a separator nor with a drive's `:`.
pub open spec fn needs_separator(base: Seq<char>) -> bool {
    &&& base.len() > 0
    &&& !separator(base.last())
    &&& base.last() != ':'
}

/// Calls `std::path::Path::join` with a plain relative component (see
/// `PathBuf::push`): the result ends with `part`. Unless `base` starts like
/// a verbatim prefix, it is `base`, then a separator (`/` or `\`, by
/// platform) where `base` needs one, then `part`. A verbatim `base` is
/// rebuilt from its components, with `.` and `..` removed and its other
/// components kept, and `part` follows a separator. What else the rebuilt
/// verbatim base holds is not said.
#[verifier::external_body]
fn join_path(base: &str, part: &str) -> (r: String)
    requires
        plain_component(part@),
    ensures
        ends_with(r@, part@),
        !verbatim(base@) ==> adjoined(r@, base@, part@),
        !verbatim(base@) && needs_separator(base@) ==> r@.len() == base@.len() + part@.len() + 1,
        verbatim(base@) ==> after_separator(r@, part@),
        forall|c: Seq<char>|
            verbatim(base@) && plain_component(c) && #[trigger] after_separator(base@, c)
                ==> ends_with(r@, c + seq![r@[r@.len() - part@.len() - 1]] + part@),
{
    std::path::Path::new(base).join(part).to_string_lossy().into_owned()
}

/// `path` ends with the folder `bible-mcp`, one separator, and the file
/// `bible.db`.
pub open spec fn database_file(path: Seq<char>) -> bool {
    &&& path.len() >= 18
    &&& separator(path[path.len() - 9])
    &&& ends_with(path, "bible-mcp"@ + seq![path[path.len() - 9]] + "bible.db"@)
}

/// The directory the database goes in: the given data directory, or the
/// current directory `.` when there is none.
pub open spec fn base_of(data_dir: Option<String>) -> Seq<char> {
    match data_dir {
        Some(d) => d@,
        None => "."@,
    }
}

/// `path` is `bible-mcp/bible.db` under `base`: `base` adjoined with the
/// folder `bible-mcp`, adjoined with the file `bible.db`.
pub open spec fn database_under(path: Seq<char>, base: Seq<char>) -> bool {
    exists|folder: Seq<char>|
        adjoined(folder, base, "bible-mcp"@) && #[trigger] adjoined(path, folder, "bible.db"@)
}

/// The database path in the data directory `data_dir`, or in the current
/// directory when there is none: `<base>/bible-mcp/bible.db`.
pub fn db_path_in(data_dir: Option<String>) -> (r: String)
    ensures
        database_file(r@),
        !verbatim(base_of(data_dir)) ==> database_under(r@, base_of(data_dir)),
{
    let ghost given = data_dir;
    let base = match data_dir {
        Some(dir) => dir,
        None => string_of(chars_of(".")),
    };
    let folder_name = "bible-mcp";
    let file_name = "bible.db";
    proof {
        reveal_strlit("bible-mcp");
        reveal_strlit("bible.db");
        reveal_strlit(".");
        reveal_strlit("..");
        assert(folder_name@[0] == 'b' && "."@[0] == '.' && ".."@[0] == '.');
        assert(folder_name@ != "."@);
        assert(folder_name@ != ".."@);
        assert(file_name@ != "."@);
        assert(file_name@ != ".."@);
        assert(base@ == base_of(given));
    }
    let folder = join_path(base.as_str(), folder_name);
    let ghost folder_view = folder@;
    let path = join_path(folder.as_str(), file_name);
    proof {
        let f = folder_view;
        let p = path@;
        let mcp = "bible-mcp"@;
        let db = "bible.db"@;
        assert(mcp.len() == 9 && db.len() == 8);
        if !verbatim(base@) {
            lemma_join_keeps_plain_start(f, base@, mcp);
        }
        if !verbatim(f) {
            assert(f.subrange(f.len() - 9, f.len() as int) == mcp);
            assert(f.last() == f.subrange(f.len() - 9, f.len() as int)[8]);
            assert(needs_separator(f));
            assert(p.len() == f.len() + 9);
            assert(p.subrange(0, f.len() as int) == f);
            let s = p[p.len() - 9];
            assert(p.subrange(p.len() - 18, p.len() as int) =~= mcp + seq![s] + db) by {
                assert forall|k: int| 0 <= k < 18 implies #[trigger] p.subrange(
                    p.len() - 18,
                    p.len() as int,
                )[k] == (mcp + seq![s] + db)[k] by {
                    if k < 9 {
                        assert(p[p.len() - 18 + k] == p.subrange(0, f.len() as int)[f.len() - 9 + k]);
                        assert(f[f.len() - 9 + k] == f.subrange(f.len() - 9, f.len() as int)[k]);
                    } else if k > 9 {
                        assert(p[p.len() - 18 + k] == p.subrange(p.len() - 8, p.len() as int)[k - 10]);
                    }
                }
            }
        } else {
            assert(verbatim(base@));
            assert(after_separator(f, mcp));
            assert(plain_component(mcp));
            assert(ends_with(p, mcp + seq![p[p.len() - 9]] + db));
        }
    }
    path
}

/// Adjoining a component whose first three characters are not `?` to a
/// base that does not start like a verbatim prefix gives a path that does
/// not either.
proof fn lemma_join_keeps_plain_start(path: Seq<char>, base: Seq<char>, part: Seq<char>)
    requires
        adjoined(path, base, part),
        !verbatim(base),
        part.len() >= 3,
        part[0] != '?' && part[1] != '?' && part[2] != '?',
    ensures
        !verbatim(path),
{
    if base.len() >= 3 {
        assert(path.subrange(0, base.len() as int)[2] == path[2]);
        assert(path.subrange(0, base.len() as int)[1] == path[1]);
        assert(path.subrange(0, base.len() as int)[0] == path[0]);
    } else {
        let start = path.len() - part.len();
        if 2 >= start {
            assert(path.subrange(start, path.len() as int)[2 - start] == path[2]);
        } else {
            assert(start == base.len() + 1);
            assert(base.len() == 2);
            assert(separator(path[2]));
        }
    }
}

/// The default database path: `bible-mcp/bible.db` in the platform's local
/// data directory, or in the current directory when there is none (see
/// `db_path_in`, which says which path each directory gives). Whatever
/// directory the platform gives, the path ends with the folder
/// `bible-mcp`, a separator and the file `bible.db`.
pub fn default_db_path() -> (r: String)
    ensures
        database_file(r@),
{
    db_path_in(data_local_dir())
}

impl Default for Config {
    fn default() -> (r: Self)
        ensures
            database_file(r.db_path@),
    {
        Config { db_path: default_db_path() }
    }
}

} // verus!
