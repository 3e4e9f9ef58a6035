use vstd::prelude::*;
use vstd::string::*;

use crate::text::chars_of;

verus! {

/// `b` appended to the path `a` as one more component, as `PathBuf::push`
/// does: an absolute `b` replaces `a`, and no separator is doubled.
pub open spec fn join_path(a: Seq<char>, b: Seq<char>) -> Seq<char> {
    if b.len() > 0 && b[0] == '/' {
        b
    } else if a.len() == 0 {
        b
    } else if a.last() == '/' {
        a + b
    } else {
        a + seq!['/'] + b
    }
}

/// The extension of a vector document, with its dot.
pub open spec fn vector_extension() -> Seq<char> {
    seq!['.', 's', 'v', 'g']
}

/// Whether the file name `name` has the vector-format extension: it ends in
/// `.svg` and something stands before that dot.
pub open spec fn has_vector_extension(name: Seq<char>) -> bool {
    name.len() > 4 && name.skip(name.len() - 4) == vector_extension()
}

/// The file name `name` without its `.svg` extension.
pub open spec fn document_stem(name: Seq<char>) -> Seq<char> {
    name.take(name.len() - 4)
}

/// Where the raster image of document `name` in color `label` goes.
pub open spec fn output_file(root: Seq<char>, label: Seq<char>, name: Seq<char>) -> Seq<char> {
    join_path(join_path(root, label), document_stem(name) + ".png"@)
}

/// Appends the component `b` to the path `a`.
pub fn join(a: &str, b: &str) -> (r: String)
    ensures
        r@ == join_path(a@, b@),
{
    let bn = b.unicode_len();
    if bn > 0 && b.get_char(0) == '/' {
        return String::from_str(b);
    }
    let an = a.unicode_len();
    if an == 0 {
        String::from_str(b)
    } else if a.get_char(an - 1) == '/' {
        let mut r = String::from_str(a);
        r.append(b);
        r
    } else {
        let mut r = String::from_str(a);
        r.append("/");
        proof {
            reveal_strlit("/");
        }
        assert("/"@ =~= seq!['/']);
        r.append(b);
        r
    }
}

/// Whether the file name `name` has the vector-format extension.
pub fn is_vector_document(name: &str) -> (r: bool)
    ensures
        r == has_vector_extension(name@),
{
    let cs = chars_of(name);
    let n = cs.len();
    if n <= 4 {
        return false;
    }
    let r = cs[n - 4] == '.' && cs[n - 3] == 's' && cs[n - 2] == 'v' && cs[n - 1] == 'g';
    let ghost tail = name@.skip(n - 4);
    assert(tail.len() == 4);
    assert(tail[0] == cs@[n - 4] && tail[1] == cs@[n - 3] && tail[2] == cs@[n - 2] && tail[3] == cs@[n - 1]);
    if r {
        assert(tail =~= vector_extension());
    } else {
        assert(tail != vector_extension()) by {
            if tail == vector_extension() {
                assert(tail[0] == '.' && tail[1] == 's' && tail[2] == 'v' && tail[3] == 'g');
            }
        }
    }
    r
}

/// The path of the raster image of document `name` in color `label` under
/// `root`: `root/label/<name without .svg>.png`.
pub fn output_path(root: &str, label: &str, name: &str) -> (r: String)
    requires
        has_vector_extension(name@),
    ensures
        r@ == output_file(root@, label@, name@),
{
    let folder = join(root, label);
    let n = name.unicode_len();
    let mut file = String::from_str(name.substring_char(0, n - 4));
    file.append(".png");
    join(folder.as_str(), file.as_str())
}

} // verus!
