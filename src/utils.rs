use vstd::prelude::*;
use vstd::string::*;

verus! {

/// The path of `file_name` under the directory `out_dir`: an absolute name
/// stands as it is, and otherwise one `/` separates the two unless the
/// directory is empty or already ends in one.
pub open spec fn joined_path(out_dir: Seq<char>, file_name: Seq<char>) -> Seq<char> {
    if file_name.len() > 0 && file_name[0] == '/' {
        file_name
    } else if out_dir.len() == 0 {
        file_name
    } else if out_dir.last() == '/' {
        out_dir + file_name
    } else {
        out_dir + seq!['/'] + file_name
    }
}

/// The path of a resource under the build output directory.
pub fn from_out_dir(out_dir: &str, file_name: &str) -> (r: String)
    ensures
        r@ == joined_path(out_dir@, file_name@),
{
    let name_len = file_name.unicode_len();
    if name_len > 0 && file_name.get_char(0) == '/' {
        return String::from_str(file_name);
    }
    let dir_len = out_dir.unicode_len();
    if dir_len == 0 {
        return String::from_str(file_name);
    }
    let mut path = String::from_str(out_dir);
    if out_dir.get_char(dir_len - 1) != '/' {
        path.append("/");
    }
    path.append(file_name);
    proof {
        reveal_strlit("/");
    }
    path
}

} // verus!
