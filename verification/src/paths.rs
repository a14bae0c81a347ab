//! Paths as text.

use crate::text;
use std::path::Path;
use vstd::prelude::*;

verus! {

/// The path of `name` in the directory `dir`: one slash between the two, none
/// where `dir` is empty or ends in one, and `name` alone where it is an
/// absolute path.
pub open spec fn joined_path(dir: Seq<char>, name: Seq<char>) -> Seq<char> {
    if dir.len() == 0 || (name.len() > 0 && name[0] == '/') {
        name
    } else if dir.last() == '/' {
        dir + name
    } else {
        dir + "/"@ + name
    }
}

/// `Path::join`.
pub fn join_path(dir: &str, name: &str) -> (r: String)
    ensures
        r@ == joined_path(dir@, name@),
{
    proof {
        reveal_strlit("/");
    }
    if dir.is_empty() || text::starts_with(name, "/") {
        assert(dir@.len() > 0 ==> "/"@[0] == name@.subrange(0, 1)[0]);
        return text::copy(name);
    }
    assert(name@.len() > 0 && name@[0] == '/' ==> "/"@ =~= name@.subrange(0, 1));
    if text::ends_with(dir, "/") {
        assert("/"@ =~= dir@.subrange(dir@.len() - 1, dir@.len() as int));
        assert("/"@[0] == dir@.last());
        text::join(dir, name)
    } else {
        assert(dir@.last() == '/' ==> "/"@ =~= dir@.subrange(
            dir@.len() - 1,
            dir@.len() as int,
        ));
        text::join3(dir, "/", name)
    }
}

/// What `Path::strip_prefix` leaves of a path when `base` is taken off its
/// front, none where `base` is not a prefix of it.
pub uninterp spec fn below(path: Seq<char>, base: Seq<char>) -> Option<Seq<char>>;

/// `Path::strip_prefix`: the rest of the path below `base`, compared by whole
/// components, which the two texts alone decide.
#[verifier::external_body]
pub(crate) fn strip_path(path: &str, base: &str) -> (r: Option<String>)
    ensures
        match r {
            Some(rest) => below(path@, base@) == Some(rest@),
            None => below(path@, base@) is None,
        },
{
    match Path::new(path).strip_prefix(Path::new(base)) {
        Ok(rest) => Some(rest.display().to_string()),
        Err(_) => None,
    }
}

/// What follows the last slash of a text, all of it where it has none.
pub open spec fn final_piece(path: Seq<char>) -> Seq<char>
    decreases path.len(),
{
    if path.len() == 0 || path.last() == '/' {
        Seq::empty()
    } else {
        final_piece(path.drop_last()).push(path.last())
    }
}

/// The last piece between slashes that is neither empty nor a dot.
pub open spec fn last_piece(path: Seq<char>) -> Option<Seq<char>>
    decreases path.len(),
{
    let piece = final_piece(path);
    if piece.len() > 0 && piece != "."@ {
        Some(piece)
    } else if piece.len() >= path.len() {
        None
    } else {
        last_piece(path.take(path.len() - piece.len() - 1))
    }
}

/// The final component of a path, none where it has no name: the last piece
/// between slashes that is neither empty nor a dot, unless that is two dots.
pub open spec fn last_component(path: Seq<char>) -> Option<Seq<char>> {
    match last_piece(path) {
        Some(piece) => if piece == ".."@ {
            None
        } else {
            Some(piece)
        },
        None => None,
    }
}

/// `Path::file_name`: the final component of a path, with slashes between
/// components as on macOS. Slashes and dots at the end are passed over; a path
/// that ends in two dots, or has no component at all, has no name.
#[verifier::external_body]
pub(crate) fn file_name(path: &str) -> (r: Option<String>)
    ensures
        text::opt_view(r) == last_component(path@),
{
    match Path::new(path).file_name() {
        Some(name) => Some(name.to_string_lossy().into_owned()),
        None => None,
    }
}

/// What stands before the final piece of a path: nothing, or a text that ends
/// in a slash.
pub open spec fn before_final_piece(path: Seq<char>) -> Seq<char> {
    path.take(path.len() - final_piece(path).len())
}

/// Whether a path ends in a component behind a single slash, or is a component
/// alone: no slash or dot that does not count stands at its end or in front of
/// that component.
pub open spec fn ends_plainly(path: Seq<char>) -> bool {
    let piece = final_piece(path);
    let head = before_final_piece(path);
    &&& piece.len() > 0 && piece != "."@
    &&& head.len() > 1 ==> {
        let above = final_piece(head.drop_last());
        above.len() > 0 && above != "."@
    }
}

/// The parent of a path that ends plainly: the text up to the last slash, which
/// belongs to it only where it is the root. A component alone has the empty
/// path for a parent.
pub open spec fn plain_parent(path: Seq<char>) -> Seq<char> {
    let head = before_final_piece(path);
    if head.len() > 1 {
        head.drop_last()
    } else {
        head
    }
}

/// What `Path::parent` gives for a path: the path without its final
/// component, none where it has none.
pub uninterp spec fn parent_of(path: Seq<char>) -> Option<Seq<char>>;

/// `Path::parent`: the path without its final component, which the path alone
/// decides. The empty path and the root have no parent, and a path that ends
/// plainly has the one that [`plain_parent`] says. Left unsaid is how slashes
/// and dots that do not count show in the parent of any other path.
#[verifier::external_body]
pub(crate) fn parent(path: &str) -> (r: Option<String>)
    ensures
        match r {
            Some(p) => parent_of(path@) == Some(p@),
            None => parent_of(path@) is None,
        },
        path@.len() == 0 || path@ == "/"@ ==> r is None,
        ends_plainly(path@) ==> text::opt_view(r) == Some(plain_parent(path@)),
{
    match Path::new(path).parent() {
        Some(p) => Some(p.to_string_lossy().into_owned()),
        None => None,
    }
}

/// The final piece is the end of a path, and holds no slash.
proof fn lemma_final_piece(path: Seq<char>)
    ensures
        final_piece(path).len() <= path.len(),
        path == before_final_piece(path) + final_piece(path),
        before_final_piece(path).len() > 0 ==> before_final_piece(path).last() == '/',
        forall|i: int| 0 <= i < final_piece(path).len() ==> #[trigger] final_piece(path)[i] != '/',
    decreases path.len(),
{
    if path.len() > 0 && path.last() != '/' {
        let shorter = path.drop_last();
        lemma_final_piece(shorter);
        assert(final_piece(path) == final_piece(shorter).push(path.last()));
        assert(before_final_piece(path) =~= before_final_piece(shorter));
        assert(path =~= shorter.push(path.last()));
        assert(path =~= before_final_piece(path) + final_piece(path));
    } else {
        assert(before_final_piece(path) =~= path);
        assert(path =~= before_final_piece(path) + final_piece(path));
    }
}

/// The parent and the final component make up the path again, where it ends
/// plainly in a name.
pub proof fn law_parent_and_name_make_up_the_path(path: Seq<char>)
    requires
        ends_plainly(path),
        final_piece(path) != ".."@,
    ensures
        last_component(path) == Some(final_piece(path)),
        joined_path(plain_parent(path), final_piece(path)) == path,
{
    reveal_strlit("/");
    lemma_final_piece(path);
    let piece = final_piece(path);
    let head = before_final_piece(path);
    assert(piece[0] != '/');
    if head.len() > 1 {
        let dir = head.drop_last();
        lemma_final_piece(dir);
        assert(dir.last() != '/') by {
            if dir.last() == '/' {
                assert(final_piece(dir) =~= Seq::empty());
            }
        }
        assert(head =~= dir + "/"@);
        assert(dir + "/"@ + piece =~= path);
    } else if head.len() == 0 {
        assert(piece =~= path);
    }
}

/// A path as it is displayed, given what it is below the home directory: a
/// tilde stands for the home directory.
pub open spec fn abbreviated(path: Seq<char>, rest: Option<Seq<char>>) -> Seq<char> {
    match rest {
        Some(r) => if r.len() == 0 {
            "~"@
        } else {
            "~/"@ + r
        },
        None => path,
    }
}

/// A path as it is displayed, given what it is below the home directory.
pub fn abbreviate_below(path: &str, rest: Option<String>) -> (r: String)
    ensures
        r@ == abbreviated(path@, text::opt_view(rest)),
{
    match rest {
        Some(rest) => if rest.as_str().is_empty() {
            text::copy("~")
        } else {
            text::join("~/", &rest)
        },
        None => text::copy(path),
    }
}

/// What a path is below the home directory; none where no home is known.
pub open spec fn below_home(path: Seq<char>, home: Option<Seq<char>>) -> Option<Seq<char>> {
    match home {
        Some(h) => if h.len() == 0 {
            None
        } else {
            below(path, h)
        },
        None => None,
    }
}

/// A path with its leading home directory shown as a tilde.
pub fn abbreviate_from(path: &str, home: Option<&str>) -> (r: String)
    ensures
        r@ == abbreviated(
            path@,
            below_home(
                path@,
                match home {
                    Some(h) => Some(h@),
                    None => None,
                },
            ),
        ),
{
    let rest = match home {
        Some(h) => if h.is_empty() {
            None
        } else {
            strip_path(path, h)
        },
        None => None,
    };
    abbreviate_below(path, rest)
}

/// The final piece of a text that ends in a slash and a text without one is the
/// latter.
proof fn lemma_final_piece_behind_a_slash(head: Seq<char>, name: Seq<char>)
    requires
        !name.contains('/'),
        head.len() == 0 || head.last() == '/',
    ensures
        final_piece(head + name) == name,
    decreases name.len(),
{
    if name.len() == 0 {
        assert(head + name =~= head);
        assert(name =~= Seq::empty());
    } else {
        let short = name.drop_last();
        assert(name.contains(name.last()));
        assert forall|i: int| 0 <= i < short.len() implies short[i] != '/' by {
            assert(name.contains(name[i]));
        }
        lemma_final_piece_behind_a_slash(head, short);
        assert((head + name).drop_last() =~= head + short);
        assert(short.push(name.last()) =~= name);
    }
}

/// A name joined to a directory is the final component of what comes out, and
/// the directory stands in front of it with one slash at its end. An absolute
/// path, and any name where there is no directory, stays as it is.
pub proof fn law_joined_names_are_found_again(dir: Seq<char>, name: Seq<char>)
    ensures
        name.len() > 0 && name[0] == '/' ==> joined_path(dir, name) == name,
        dir.len() == 0 ==> joined_path(dir, name) == name,
        name.len() > 0 && !name.contains('/') && name != "."@ && name != ".."@ ==> ({
            let path = joined_path(dir, name);
            let slash: int = if dir.len() == 0 || dir.last() == '/' {
                0
            } else {
                1
            };
            &&& last_component(path) == Some(name)
            &&& path.len() == dir.len() + slash + name.len()
            &&& path.take(dir.len() as int) == dir
            &&& path.skip(dir.len() + slash) == name
            &&& dir.len() > 0 ==> path[dir.len() + slash - 1] == '/'
        }),
{
    reveal_strlit("/");
    if name.len() > 0 && !name.contains('/') && name != "."@ && name != ".."@ {
        assert(name.contains(name[0]));
        let path = joined_path(dir, name);
        if dir.len() == 0 {
            assert(dir + name =~= name);
            lemma_final_piece_behind_a_slash(dir, name);
            assert(path.take(0) =~= dir);
            assert(path.skip(0) =~= name);
        } else if dir.last() == '/' {
            lemma_final_piece_behind_a_slash(dir, name);
            assert(path.take(dir.len() as int) =~= dir);
            assert(path.skip(dir.len() as int) =~= name);
        } else {
            lemma_final_piece_behind_a_slash(dir + "/"@, name);
            assert(path.take(dir.len() as int) =~= dir);
            assert(path.skip(dir.len() + 1int) =~= name);
        }
        assert(final_piece(path) == name);
    }
}

/// The final piece of a path is what follows its last slash: it holds none, and
/// the rest of the path is empty or ends in one. Slashes and dots at the end do
/// not change the final component.
pub proof fn law_the_final_piece_follows_the_last_slash(path: Seq<char>)
    ensures
        path == before_final_piece(path) + final_piece(path),
        before_final_piece(path).len() > 0 ==> before_final_piece(path).last() == '/',
        !final_piece(path).contains('/'),
        last_component(path.push('/')) == last_component(path),
        last_component(path.push('/').push('.')) == last_component(path),
        last_component(path) != Some("."@) && last_component(path) != Some(".."@),
{
    reveal_strlit(".");
    lemma_final_piece(path);
    let a = path.push('/');
    let b = a.push('.');
    assert(final_piece(a) =~= Seq::<char>::empty());
    assert(a.take(a.len() - 0 - 1) =~= path);
    assert(b.drop_last() =~= a);
    assert(final_piece(b) =~= "."@);
    assert(b.take(b.len() - 1 - 1) =~= path);
    assert(last_piece(a) == last_piece(path));
    assert(last_piece(b) == last_piece(path));
    lemma_last_piece_counts(path);
}

/// The last piece of a path is never empty or a dot.
proof fn lemma_last_piece_counts(path: Seq<char>)
    ensures
        last_piece(path) matches Some(piece) ==> piece.len() > 0 && piece != "."@,
    decreases path.len(),
{
    let piece = final_piece(path);
    if !(piece.len() > 0 && piece != "."@) && piece.len() < path.len() {
        lemma_last_piece_counts(path.take(path.len() - piece.len() - 1));
    }
}

/// The home directory shows as a tilde, what lies below it behind a tilde and a
/// slash, and anything else as it is. Without a home directory nothing lies
/// below it.
pub proof fn law_a_tilde_stands_for_home(path: Seq<char>, rest: Seq<char>)
    ensures
        abbreviated(path, None) == path,
        abbreviated(path, Some(rest)) == (if rest.len() == 0 {
            seq!['~']
        } else {
            seq!['~', '/'] + rest
        }),
        below_home(path, None) is None,
        below_home(path, Some(Seq::empty())) is None,
        rest.len() > 0 ==> below_home(path, Some(rest)) == below(path, rest),
{
    reveal_strlit("~");
    reveal_strlit("~/");
    assert("~"@ =~= seq!['~']);
    assert("~/"@ =~= seq!['~', '/']);
}

} // verus!
