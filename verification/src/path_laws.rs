//! What holds of paths: of one that is put below a directory, and of what is read off it again.

use vstd::prelude::*;

use crate::chars::lemma_first_index_is;
use crate::paths::{
    components, path_extension, path_file_name, path_file_stem, path_join, path_parent, path_root,
    path_starts_with, real_pieces, strip_tail,
};
use crate::server::{is_relevant, is_witness};
use crate::split::{last_index, lemma_last_index, pieces};

verus! {

/// Whether a text can name a file or a directory: it is not empty, has no slash and is no dot.
pub open spec fn names_entry(name: Seq<char>) -> bool {
    &&& name.len() > 0
    &&& forall|i: int| 0 <= i < name.len() ==> #[trigger] name[i] != '/'
    &&& !(name.len() == 1 && name[0] == '.')
}

/// Whether a text can name a file: it can name an entry, and does not lead upwards.
pub open spec fn names_file(name: Seq<char>) -> bool {
    names_entry(name) && !(name.len() == 2 && name[0] == '.' && name[1] == '.')
}

/// Whether a directory is written without a slash or a single dot at its end. The root is.
pub open spec fn is_plain_directory(directory: Seq<char>) -> bool {
    ||| directory == seq!['/']
    ||| {
        let n = directory.len() as int;
        &&& n > 0
        &&& directory[n - 1] != '/'
        &&& !(n > 1 && directory[n - 1] == '.' && directory[n - 2] == '/')
    }
}

/// The index of the last `c`, found by hand.
proof fn lemma_last_index_is(text: Seq<char>, c: char, at: int)
    requires
        -1 <= at < text.len(),
        at >= 0 ==> text[at] == c,
        forall|k: int| at < k < text.len() ==> text[k] != c,
    ensures
        last_index(text, c) == at,
{
    lemma_last_index(text, c);
    let found = last_index(text, c);
    if found < at {
        assert(text[at] != c);
    } else if found > at {
        assert(text[found] != c);
    }
}

/// An entry below a directory lies in that directory.
pub proof fn law_entry_lies_in_its_directory(directory: Seq<char>, name: Seq<char>)
    requires
        is_plain_directory(directory),
        names_entry(name),
    ensures
        path_parent(path_join(directory, name)) == Some(directory),
{
    let path = path_join(directory, name);
    assert(name[0] != '/');
    assert(path.last() == name.last());
    assert(name[name.len() - 1] != '/');
    if path.last() == '.' && path[path.len() - 2] == '/' {
        if name.len() > 1 {
            assert(path[path.len() - 2] == name[name.len() - 2]);
        }
    }
    assert(strip_tail(path) == path);
    let at = path.len() - name.len() - 1;
    assert forall|k: int| at < k < path.len() implies path[k] != '/' by {
        assert(path[k] == name[k - at - 1]);
    }
    lemma_last_index_is(path, '/', at);
    if directory == seq!['/'] {
        assert(path.take(at + 1) =~= directory);
        assert(strip_tail(directory) == directory);
    } else {
        let slashed = path.take(at + 1);
        assert(slashed =~= directory.push('/'));
        assert(slashed.drop_last() =~= directory);
        assert(strip_tail(slashed) == strip_tail(directory));
        assert(strip_tail(directory) == directory);
    }
}

/// A text that begins before a separator has the pieces of both sides.
proof fn lemma_pieces_of_two(front: Seq<char>, back: Seq<char>, c: char)
    ensures
        pieces(front.push(c) + back, c) == pieces(front, c) + pieces(back, c),
    decreases front.len(),
{
    let whole = front.push(c) + back;
    let at = crate::chars::first_index(front, c);
    crate::chars::lemma_first_index(front, c);
    if 0 <= at < front.len() {
        lemma_first_index_is(whole, c, at);
        assert(whole.take(at) =~= front.take(at));
        let rest = front.skip(at + 1);
        lemma_pieces_of_two(rest, back, c);
        assert(whole.skip(at + 1) =~= rest.push(c) + back);
        assert(pieces(whole, c) =~= seq![front.take(at)] + (pieces(rest, c) + pieces(back, c)));
        assert(pieces(front, c) + pieces(back, c) =~= seq![front.take(at)] + (pieces(rest, c)
            + pieces(back, c)));
    } else {
        lemma_first_index_is(whole, c, front.len() as int);
        assert(whole.take(front.len() as int) =~= front);
        assert(whole.skip(front.len() as int + 1) =~= back);
        assert(pieces(front, c) =~= seq![front]);
        assert(pieces(whole, c) =~= seq![front] + pieces(back, c));
    }
}

/// What is named in two lists is named in both of them one after the other.
proof fn lemma_real_pieces_of_two(front: Seq<Seq<char>>, back: Seq<Seq<char>>)
    ensures
        real_pieces(front + back) == real_pieces(front) + real_pieces(back),
    decreases back.len(),
{
    if back.len() == 0 {
        assert(front + back =~= front);
        assert(real_pieces(front) + real_pieces(back) =~= real_pieces(front));
    } else {
        lemma_real_pieces_of_two(front, back.drop_last());
        assert((front + back).drop_last() =~= front + back.drop_last());
        assert((front + back).last() == back.last());
        assert(real_pieces(front + back) =~= real_pieces(front) + real_pieces(back));
    }
}

/// A text without a separator is its only piece.
proof fn lemma_one_piece(name: Seq<char>)
    requires
        names_entry(name),
    ensures
        pieces(name, '/') == seq![name],
        real_pieces(pieces(name, '/')) == seq![name],
{
    crate::chars::lemma_first_index(name, '/');
    let at = crate::chars::first_index(name, '/');
    if 0 <= at < name.len() {
        assert(name[at] != '/');
    }
    assert(pieces(name, '/') =~= seq![name]);
    let list = seq![name];
    assert(list.drop_last() =~= Seq::<Seq<char>>::empty());
    assert(real_pieces(list.drop_last()) =~= Seq::<Seq<char>>::empty());
    if name == seq!['.'] {
        assert(name[0] == '.');
    }
    assert(real_pieces(list) =~= seq![name]);
}

/// The components of an entry are those of its directory, and its name behind them.
pub proof fn law_entry_has_one_component_more(directory: Seq<char>, name: Seq<char>)
    requires
        directory.len() > 0,
        names_entry(name),
    ensures
        components(path_join(directory, name)) == components(directory).push(name),
{
    let path = path_join(directory, name);
    assert(name[0] != '/');
    lemma_one_piece(name);
    assert(path[0] == directory[0]);
    if directory.last() == '/' {
        let front = directory.drop_last();
        assert(front.push('/') =~= directory);
        assert(path =~= front.push('/') + name);
        lemma_pieces_of_two(front, name, '/');
        let empty = Seq::<char>::empty();
        lemma_pieces_of_two(front, empty, '/');
        assert(front.push('/') + empty =~= directory);
        assert(pieces(empty, '/') =~= seq![empty]);
        lemma_real_pieces_of_two(pieces(front, '/'), seq![empty]);
        let nothing = Seq::<Seq<char>>::empty();
        assert(seq![empty].drop_last() =~= nothing);
        assert(real_pieces(nothing) =~= nothing);
        assert(seq![empty].last() == empty);
        assert(real_pieces(seq![empty]) =~= nothing);
        lemma_real_pieces_of_two(pieces(front, '/'), pieces(name, '/'));
        assert(real_pieces(pieces(directory, '/')) =~= real_pieces(pieces(front, '/')));
        lemma_pieces_exist(front);
        assert(pieces(path, '/')[0] == pieces(front, '/')[0]);
        assert(pieces(directory, '/')[0] == pieces(front, '/')[0]);
    } else {
        lemma_pieces_of_two(directory, name, '/');
        lemma_real_pieces_of_two(pieces(directory, '/'), pieces(name, '/'));
        lemma_pieces_exist(directory);
        assert(pieces(path, '/')[0] == pieces(directory, '/')[0]);
    }
    assert(path_root(path) == path_root(directory));
    assert(components(path) =~= components(directory).push(name));
}

/// The pieces of a text are at least one.
proof fn lemma_pieces_exist(text: Seq<char>)
    ensures
        pieces(text, '/').len() > 0,
{
}

/// What lies in a directory begins with it, and so does what lies in that in turn. Of what lies
/// beside it only what has its name does.
pub proof fn law_directories_hold_their_entries(
    directory: Seq<char>,
    name: Seq<char>,
    other: Seq<char>,
    path: Seq<char>,
)
    requires
        directory.len() > 0,
        names_entry(name),
        names_entry(other),
    ensures
        path_starts_with(directory, directory),
        path_starts_with(path_join(directory, name), directory),
        !path_starts_with(directory, path_join(directory, name)),
        path_starts_with(path, path_join(directory, name)) ==> path_starts_with(path, directory),
        path_starts_with(path_join(directory, other), path_join(directory, name)) <==> other
            == name,
{
    law_entry_has_one_component_more(directory, name);
    law_entry_has_one_component_more(directory, other);
    let all = components(directory);
    let entry = all.push(name);
    let sibling = all.push(other);
    assert(all =~= all.subrange(0, all.len() as int));
    assert(all =~= entry.subrange(0, all.len() as int));
    if path_starts_with(path, path_join(directory, name)) {
        let long = components(path);
        assert(entry =~= long.subrange(0, entry.len() as int));
        assert forall|i: int| 0 <= i < all.len() implies all[i] == long.subrange(
            0,
            all.len() as int,
        )[i] by {
            assert(entry[i] == long[i]);
        }
        assert(all =~= long.subrange(0, all.len() as int));
    }
    if entry.is_prefix_of(sibling) {
        assert(entry =~= sibling.subrange(0, entry.len() as int));
        assert(entry[all.len() as int] == sibling[all.len() as int]);
    }
    if other == name {
        assert(entry =~= sibling.subrange(0, entry.len() as int));
    }
}

/// A path that is not absolute is looked for below its base. One that is absolute stands for
/// itself.
pub proof fn law_base_is_for_relative_paths(base: Seq<char>, path: Seq<char>)
    ensures
        path.len() > 0 && path[0] == '/' ==> path_join(base, path) == path,
        base.len() > 0 && (path.len() == 0 || path[0] != '/') ==> {
            &&& base.is_prefix_of(path_join(base, path))
            &&& path.is_suffix_of(path_join(base, path))
        },
        path_join(Seq::<char>::empty(), path) == path,
{
    let joined = path_join(base, path);
    if base.len() > 0 && (path.len() == 0 || path[0] != '/') {
        assert(base =~= joined.subrange(0, base.len() as int));
        assert(path =~= joined.subrange(joined.len() - path.len(), joined.len() as int));
    }
    assert(Seq::<char>::empty() + path =~= path);
}

/// The name of a file below a directory is the one that it was given there.
pub proof fn law_file_has_its_name(directory: Seq<char>, name: Seq<char>)
    requires
        directory.len() > 0,
        names_file(name),
    ensures
        path_file_name(path_join(directory, name)) == Some(name),
{
    law_entry_has_one_component_more(directory, name);
    let list = components(path_join(directory, name));
    assert(list.last() == name);
    assert(name[0] != '/');
    if name == seq!['.', '.'] {
        assert(name[1] == '.');
    }
    if name == seq!['.'] {
        assert(name[0] == '.');
    }
    if name == seq!['/'] {
        assert(name[0] == '/');
    }
}

/// A file name is cut at its last dot into a stem and an extension, where something stands before
/// that dot.
pub proof fn law_file_name_is_cut_at_last_dot(
    directory: Seq<char>,
    stem: Seq<char>,
    extension: Seq<char>,
)
    requires
        directory.len() > 0,
        stem.len() > 0,
        names_file(stem.push('.') + extension),
        forall|i: int| 0 <= i < extension.len() ==> #[trigger] extension[i] != '.',
    ensures
        path_extension(path_join(directory, stem.push('.') + extension)) == Some(extension),
        path_file_stem(path_join(directory, stem.push('.') + extension)) == Some(stem),
{
    let name = stem.push('.') + extension;
    law_file_has_its_name(directory, name);
    let at = stem.len() as int;
    assert forall|k: int| at < k < name.len() implies name[k] != '.' by {
        assert(name[k] == extension[k - at - 1]);
    }
    lemma_last_index_is(name, '.', at);
    assert(name.skip(at + 1) =~= extension);
    assert(name.take(at) =~= stem);
}

/// A file name without a dot, or with none but the first character, has no extension.
pub proof fn law_other_file_names_are_not_cut(directory: Seq<char>, name: Seq<char>)
    requires
        directory.len() > 0,
        names_file(name),
        forall|i: int| 0 < i < name.len() ==> #[trigger] name[i] != '.',
    ensures
        path_extension(path_join(directory, name)) is None,
        path_file_stem(path_join(directory, name)) == Some(name),
{
    law_file_has_its_name(directory, name);
    lemma_last_index(name, '.');
    let at = last_index(name, '.');
    if at > 0 {
        assert(name[at] != '.');
    }
}

/// A file is a witness exactly where its extension is `wit`, in capitals or not.
pub proof fn law_witness_files_have_their_extension(
    directory: Seq<char>,
    stem: Seq<char>,
    extension: Seq<char>,
)
    requires
        directory.len() > 0,
        stem.len() > 0,
        names_file(stem.push('.') + extension),
        forall|i: int| 0 <= i < extension.len() ==> #[trigger] extension[i] != '.',
    ensures
        is_witness(path_join(directory, stem.push('.') + extension)) <==> {
            &&& extension.len() == 3
            &&& (extension[0] == 'w' || extension[0] == 'W')
            &&& (extension[1] == 'i' || extension[1] == 'I')
            &&& (extension[2] == 't' || extension[2] == 'T')
        },
{
    law_file_name_is_cut_at_last_dot(directory, stem, extension);
    reveal_strlit("wit");
}

/// The open documents are analyzed again where a source or a manifest changed, under either name of
/// it.
pub proof fn law_sources_and_manifests_are_relevant(directory: Seq<char>, stem: Seq<char>)
    requires
        directory.len() > 0,
        stem.len() > 0,
        names_file(stem.push('.') + "simf"@),
    ensures
        is_relevant(path_join(directory, stem.push('.') + "simf"@)),
        is_relevant(path_join(directory, "Simplex.toml"@)),
        is_relevant(path_join(directory, "simplex.toml"@)),
{
    reveal_strlit("simf");
    reveal_strlit("Simplex.toml");
    reveal_strlit("simplex.toml");
    law_file_name_is_cut_at_last_dot(directory, stem, "simf"@);
    law_file_has_its_name(directory, "Simplex.toml"@);
    law_file_has_its_name(directory, "simplex.toml"@);
}

/// A file with an extension of another length than those of sources and manifests changes nothing.
pub proof fn law_other_files_are_irrelevant(
    directory: Seq<char>,
    stem: Seq<char>,
    extension: Seq<char>,
)
    requires
        directory.len() > 0,
        stem.len() > 0,
        names_file(stem.push('.') + extension),
        forall|i: int| 0 <= i < extension.len() ==> #[trigger] extension[i] != '.',
        extension.len() != 4,
    ensures
        !is_relevant(path_join(directory, stem.push('.') + extension)),
{
    let name = stem.push('.') + extension;
    reveal_strlit("simf");
    reveal_strlit("simplex.toml");
    law_file_name_is_cut_at_last_dot(directory, stem, extension);
    law_file_has_its_name(directory, name);
    assert(name[stem.len() as int] == '.');
}

} // verus!
