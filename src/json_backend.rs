use vstd::prelude::*;
use vstd::string::StringExecFns;

verus! {

/// Where the JSON storage keeps its entries.
pub struct JsonBackend {
    pub file_path: String,
}

/// The file name of the entries inside the data directory.
pub const ENTRIES_FILE_NAME: &'static str = "entries.json";

/// `name` placed inside the directory `dir`: a separator is put between them unless
/// `dir` is empty or already ends with one.
pub open spec fn join_path(dir: Seq<char>, name: Seq<char>) -> Seq<char> {
    if dir.len() == 0 {
        name
    } else if dir.last() == '/' {
        dir + name
    } else {
        dir + seq!['/'] + name
    }
}

/// Relies on str::ends_with with a `char` pattern: true when the last character is `c`.
#[verifier::external_body]
fn ends_with_char(s: &str, c: char) -> (r: bool)
    ensures
        r == (s@.len() > 0 && s@.last() == c),
{
    s.ends_with(c)
}

/// The path of the entries file inside the data directory `data_dir`.
pub fn get_default_json_path(data_dir: &str) -> (r: String)
    ensures
        r@ == join_path(data_dir@, ENTRIES_FILE_NAME@),
{
    proof {
        reveal_strlit("entries.json");
        reveal_strlit("/");
    }
    let mut path = String::from_str(data_dir);
    if !data_dir.is_empty() && !ends_with_char(data_dir, '/') {
        path.append("/");
    }
    path.append(ENTRIES_FILE_NAME);
    proof {
        if data_dir@.len() > 0 && data_dir@.last() != '/' {
            assert("/"@ =~= seq!['/']);
        } else if data_dir@.len() == 0 {
            assert(path@ =~= ENTRIES_FILE_NAME@);
        }
    }
    path
}

impl JsonBackend {
    /// The storage in its default place inside the data directory `data_dir`.
    pub fn get_default(data_dir: &str) -> (r: JsonBackend)
        ensures
            r.file_path@ == join_path(data_dir@, ENTRIES_FILE_NAME@),
    {
        JsonBackend { file_path: get_default_json_path(data_dir) }
    }
}

} // verus!
