//! File paths as text: joining and comparison by components.

use crate::text;
use vstd::prelude::*;
use vstd::string::*;

verus! {

/// The path of `name` inside the directory `dir`.
pub open spec fn joined(dir: Seq<char>, name: Seq<char>) -> Seq<char> {
    if dir.len() == 0 || dir.last() == '/' {
        dir + name
    } else {
        dir + seq!['/'] + name
    }
}

/// What a path means, however it is spelled: whether it starts at the root,
/// whether it is spelled relative to the current directory with a leading dot,
/// and the names on the way. Doubled and trailing slashes and further dots say
/// nothing.
pub struct PathKey {
    pub rooted: bool,
    pub dotted: bool,
    pub names: Seq<Seq<char>>,
}

/// Whether a piece between slashes names something.
pub open spec fn is_name(piece: Seq<char>) -> bool {
    piece.len() > 0 && piece != seq!['.']
}

/// What a path means.
pub open spec fn path_key(path: Seq<char>) -> PathKey {
    let pieces = text::split_on(path, '/');
    PathKey {
        rooted: path.len() > 0 && path[0] == '/',
        dotted: pieces.first() == seq!['.'],
        names: pieces.filter(|piece: Seq<char>| is_name(piece)),
    }
}

/// Joins a directory and the name of an entry in it.
pub fn join(dir: &str, name: &str) -> (r: String)
    ensures
        r@ == joined(dir@, name@),
{
    let n: usize = dir.unicode_len();
    let mut r: String = dir.to_string();
    if n > 0 && dir.get_char(n - 1) != '/' {
        proof {
            reveal_strlit("/");
        }
        r.append("/");
        assert("/"@ =~= seq!['/']);
    }
    r.append(name);
    r
}

fn is_dot(piece: &str) -> (r: bool)
    ensures
        r == (piece@ == seq!['.']),
{
    proof {
        reveal_strlit(".");
    }
    assert("."@ =~= seq!['.']);
    text::same_text(piece, ".")
}

fn names(pieces: &Vec<&str>) -> (r: Vec<String>)
    ensures
        text::strings(r@) == text::texts(pieces@).filter(|piece: Seq<char>| is_name(piece)),
{
    let ghost all = text::texts(pieces@);
    let ghost named = |piece: Seq<char>| is_name(piece);
    let mut r: Vec<String> = Vec::new();
    let mut i: usize = 0;
    proof {
        reveal(Seq::filter);
    }
    assert(text::strings(r@) =~= all.take(0).filter(named));
    while i < pieces.len()
        invariant
            i <= pieces.len(),
            all == text::texts(pieces@),
            named == (|piece: Seq<char>| is_name(piece)),
            text::strings(r@) == all.take(i as int).filter(named),
        decreases pieces.len() - i,
    {
        proof {
            reveal(Seq::filter);
        }
        let ghost before = r@;
        let piece: &str = pieces[i];
        assert(all.take(i + 1).drop_last() =~= all.take(i as int));
        if piece.unicode_len() > 0 && !is_dot(piece) {
            r.push(piece.to_string());
            assert(text::strings(r@) =~= text::strings(before).push(piece@));
        }
        i = i + 1;
    }
    assert(all.take(i as int) =~= all);
    r
}

fn same_names(a: &Vec<String>, b: &Vec<String>) -> (r: bool)
    ensures
        r == (text::strings(a@) == text::strings(b@)),
{
    if a.len() != b.len() {
        assert(text::strings(a@).len() != text::strings(b@).len());
        return false;
    }
    let mut i: usize = 0;
    while i < a.len()
        invariant
            i <= a.len(),
            a.len() == b.len(),
            forall|k: int| 0 <= k < i ==> a@[k]@ == #[trigger] b@[k]@,
        decreases a.len() - i,
    {
        if a[i] != b[i] {
            assert(text::strings(a@)[i as int] != text::strings(b@)[i as int]);
            return false;
        }
        i = i + 1;
    }
    assert(text::strings(a@) =~= text::strings(b@));
    true
}

fn starts_with_slash(path: &str) -> (r: bool)
    ensures
        r == (path@.len() > 0 && path@[0] == '/'),
{
    path.unicode_len() > 0 && path.get_char(0) == '/'
}

/// Whether two paths have the same components.
pub fn same_path(a: &str, b: &str) -> (r: bool)
    ensures
        r == (path_key(a@) == path_key(b@)),
{
    let a_pieces: Vec<&str> = text::split(a, '/');
    let b_pieces: Vec<&str> = text::split(b, '/');
    assert(text::texts(a_pieces@).first() == a_pieces@.first()@);
    assert(text::texts(b_pieces@).first() == b_pieces@.first()@);
    if starts_with_slash(a) != starts_with_slash(b) {
        return false;
    }
    if is_dot(a_pieces[0]) != is_dot(b_pieces[0]) {
        return false;
    }
    let a_names: Vec<String> = names(&a_pieces);
    let b_names: Vec<String> = names(&b_pieces);
    same_names(&a_names, &b_names)
}

// ---------------------------------------------------------------------------
// Laws
// ---------------------------------------------------------------------------

/// A name stands in its directory behind exactly one slash: the one that the directory
/// ends with, or one that is put between them. A name in no directory stands alone.
pub proof fn one_slash_parts_directory_and_name(dir: Seq<char>, name: Seq<char>)
    ensures
        joined(Seq::<char>::empty(), name) == name,
        joined(dir + seq!['/'], name) == dir + seq!['/'] + name,
        dir.len() > 0 && dir[dir.len() - 1] != '/' ==> joined(dir, name) == joined(
            dir + seq!['/'],
            name,
        ),
{
    assert(Seq::<char>::empty() + name =~= name);
    assert((dir + seq!['/']).last() == '/');
}

proof fn lemma_names_add(a: Seq<Seq<char>>, b: Seq<Seq<char>>)
    ensures
        (a + b).filter(|piece: Seq<char>| is_name(piece)) == a.filter(
            |piece: Seq<char>| is_name(piece),
        ) + b.filter(|piece: Seq<char>| is_name(piece)),
    decreases b.len(),
{
    let named = |piece: Seq<char>| is_name(piece);
    reveal(Seq::filter);
    if b.len() == 0 {
        assert(a + b =~= a);
        assert(a.filter(named) + b.filter(named) =~= a.filter(named));
    } else {
        assert((a + b).drop_last() =~= a + b.drop_last());
        lemma_names_add(a, b.drop_last());
        assert((a + b).filter(named) =~= a.filter(named) + b.filter(named));
    }
}

proof fn lemma_one_piece(piece: Seq<char>)
    ensures
        seq![piece].filter(|p: Seq<char>| is_name(p)) == (if piece.len() > 0 && piece != seq!['.'] {
            seq![piece]
        } else {
            Seq::<Seq<char>>::empty()
        }),
{
    let named = |p: Seq<char>| is_name(p);
    reveal(Seq::filter);
    assert(seq![piece].drop_last() =~= Seq::<Seq<char>>::empty());
    assert(seq![piece].drop_last().filter(named) =~= Seq::<Seq<char>>::empty());
    assert(seq![piece].filter(named) =~= (if piece.len() > 0 && piece != seq!['.'] {
        seq![piece]
    } else {
        Seq::<Seq<char>>::empty()
    }));
}

proof fn lemma_split_has_pieces(s: Seq<char>)
    ensures
        text::split_on(s, '/').len() > 0,
{
}

/// How a path is spelled does not matter: a slash may be doubled, a dot may stand between
/// slashes, and a path may end in a slash or in a slash and a dot.
pub proof fn spelling_does_not_matter(a: Seq<char>, b: Seq<char>)
    ensures
        path_key(a + seq!['/'] + (seq!['/'] + b)) == path_key(a + seq!['/'] + b),
        path_key(a + seq!['/'] + (seq!['.', '/'] + b)) == path_key(a + seq!['/'] + b),
        a.len() > 0 ==> path_key(a + seq!['/']) == path_key(a),
        a.len() > 0 ==> path_key(a + seq!['/', '.']) == path_key(a),
{
    let slash = seq!['/'];
    let none = Seq::<char>::empty();
    let dot = seq!['.'];
    let pa = text::split_on(a, '/');
    let pb = text::split_on(b, '/');
    lemma_split_has_pieces(a);
    // A slash more.
    text::splitting_parts_at_each_separator(a, '/', b);
    text::splitting_parts_at_each_separator(a, '/', slash + b);
    text::splitting_parts_at_each_separator(none, '/', b);
    assert(none + slash + b =~= slash + b);
    lemma_names_add(pa, pb);
    lemma_names_add(pa, seq![none] + pb);
    lemma_names_add(seq![none], pb);
    lemma_one_piece(none);
    let x = a + slash + (slash + b);
    let y = a + slash + b;
    assert(x[0] == y[0]);
    assert((pa + pb).first() == pa.first());
    assert((pa + (seq![none] + pb)).first() == pa.first());
    assert(path_key(x).names =~= path_key(y).names);
    // A dot between slashes.
    text::splitting_parts_at_each_separator(a, '/', seq!['.', '/'] + b);
    text::splitting_parts_at_each_separator(dot, '/', b);
    assert(dot + slash + b =~= seq!['.', '/'] + b);
    assert(!dot.contains('/')) by {
        assert(dot[0] == '.');
    }
    lemma_names_add(pa, seq![dot] + pb);
    lemma_names_add(seq![dot], pb);
    lemma_one_piece(dot);
    let z = a + slash + (seq!['.', '/'] + b);
    assert(z[0] == y[0]);
    assert((pa + (seq![dot] + pb)).first() == pa.first());
    assert(path_key(z).names =~= path_key(y).names);
    // At the end.
    if a.len() > 0 {
        text::splitting_parts_at_each_separator(a, '/', none);
        text::splitting_parts_at_each_separator(none, '/', none);
        assert(a + slash + none =~= a + slash);
        assert(text::split_on(none, '/') == seq![none]);
        lemma_names_add(pa, seq![none]);
        assert((a + slash)[0] == a[0]);
        assert((pa + seq![none]).first() == pa.first());
        assert(path_key(a + slash).names =~= path_key(a).names);
        text::splitting_parts_at_each_separator(a, '/', dot);
        text::splitting_parts_at_each_separator(dot, '/', none);
        assert(a + slash + dot =~= a + seq!['/', '.']);
        lemma_names_add(pa, seq![dot]);
        assert((a + seq!['/', '.'])[0] == a[0]);
        assert((pa + seq![dot]).first() == pa.first());
        assert(path_key(a + seq!['/', '.']).names =~= path_key(a).names);
    }
}

/// The names on the way do matter: a path without slashes that is neither empty nor a dot
/// is one name, a slash parts the names before it from those behind it, and only paths
/// with the same names, from the same start, are the same.
pub proof fn names_on_the_way_matter(a: Seq<char>, b: Seq<char>)
    ensures
        path_key(a + seq!['/'] + b).names == path_key(a).names + path_key(b).names,
        !a.contains('/') && a.len() > 0 && a != seq!['.'] ==> path_key(a).names == seq![a],
        !a.contains('/') && (a.len() == 0 || a == seq!['.']) ==> path_key(a).names.len() == 0,
        path_key(a).rooted <==> a.len() > 0 && a[0] == '/',
        path_key(a).dotted <==> a == seq!['.'] || (a.len() > 1 && a[0] == '.' && a[1] == '/'),
{
    text::splitting_parts_at_each_separator(a, '/', b);
    lemma_names_add(text::split_on(a, '/'), text::split_on(b, '/'));
    lemma_one_piece(a);
    let dot = seq!['.'];
    let first = text::split_on(a, '/').first();
    if a.contains('/') {
        let (x, y) = match text::split_once_on(a, '/') {
            Some((x, y)) => (x, y),
            None => (a, a),
        };
        text::first_separator_parts_the_text(a, x, '/', y);
        text::splitting_parts_at_each_separator(x, '/', y);
        assert(a == x + seq!['/'] + y);
        assert(first == x);
        if x == dot {
            assert(a[0] == '.' && a[1] == '/');
        }
        if a.len() > 1 && a[0] == '.' && a[1] == '/' {
            assert(x.len() > 0) by {
                if x.len() == 0 {
                    assert(a[0] == '/');
                }
            }
            if x.len() > 1 {
                assert(x[1] == a[1]);
                assert(x.contains('/'));
            }
            assert(x =~= dot);
        }
        if a == dot {
            assert(a[0] == '.');
            let k = choose|k: int| 0 <= k < a.len() && a[k] == '/';
            assert(false);
        }
    } else if a.len() > 1 && a[1] == '/' {
        assert(a.contains('/'));
    }
}

} // verus!
