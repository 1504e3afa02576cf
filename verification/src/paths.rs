//! Paths, taken apart at slashes.

use vstd::prelude::*;

use crate::text::{
    chars_of, in_dir, join_path, last_index, pieces, push_arg, rfind_char, same_text, slice, split,
    text_opt, texts, Separator,
};

verus! {

/// Whether a path starts at the root.
pub open spec fn rooted(path: Seq<char>) -> bool {
    path.len() > 0 && path[0] == '/'
}

/// The pieces of a path that are components: neither empty nor a full stop.
pub open spec fn kept_pieces() -> spec_fn(Seq<char>) -> bool {
    |p: Seq<char>| p.len() > 0 && p != "."@
}

/// The components of a path: what stands between slashes, without the empty
/// ones and without full stops behind the first place.
pub open spec fn path_components(path: Seq<char>) -> Seq<Seq<char>> {
    let all = pieces(path, Separator::At('/'));
    (if all[0] == "."@ {
        seq!["."@]
    } else {
        seq![]
    }) + all.filter(kept_pieces())
}

pub fn components(path: &str) -> (r: Vec<String>)
    ensures
        texts(r@) == path_components(path@),
{
    let all = split(path, Separator::At('/'));
    let mut r: Vec<String> = Vec::new();
    let ghost kept = kept_pieces();
    if same_text(all[0].as_str(), ".") {
        push_arg(&mut r, ".");
    }
    let ghost lead = texts(r@);
    assert(lead =~= if texts(all@)[0] == "."@ {
        seq!["."@]
    } else {
        seq![]
    });
    let mut i: usize = 0;
    assert(lead + texts(all@).take(0).filter(kept) =~= lead) by {
        reveal(Seq::filter);
    }
    while i < all.len()
        invariant
            i <= all.len(),
            kept == kept_pieces(),
            texts(r@) == lead + texts(all@).take(i as int).filter(kept),
        decreases all.len() - i,
    {
        let ghost before = texts(r@);
        let ghost done = texts(all@).take(i as int).filter(kept);
        proof {
            assert(texts(all@).take(i + 1).drop_last() =~= texts(all@).take(i as int));
            assert(texts(all@).take(i + 1).last() == all@[i as int]@);
            reveal(Seq::filter);
        }
        if !all[i].as_str().is_empty() && !same_text(all[i].as_str(), ".") {
            push_arg(&mut r, all[i].as_str());
            assert(before.push(all@[i as int]@) =~= lead + done.push(all@[i as int]@));
        }
        i = i + 1;
    }
    assert(texts(all@).take(all@.len() as int) =~= texts(all@));
    r
}

/// Whether a component names a file or a directory.
pub open spec fn normal_component(c: Seq<char>) -> bool {
    c != "."@ && c != ".."@
}

/// The last component of a path, where it names a file.
pub open spec fn last_name(parts: Seq<Seq<char>>) -> Option<Seq<char>> {
    if parts.len() > 0 && normal_component(parts.last()) {
        Some(parts.last())
    } else {
        None
    }
}

pub open spec fn file_name_spec(path: Seq<char>) -> Option<Seq<char>> {
    last_name(path_components(path))
}

pub fn last_component(parts: &Vec<String>) -> (r: Option<String>)
    ensures
        text_opt(r) == last_name(texts(parts@)),
{
    assert(parts@.len() == texts(parts@).len());
    if parts.len() == 0 {
        return None;
    }
    let last = parts[parts.len() - 1].clone();
    assert(texts(parts@).last() == last@);
    if same_text(last.as_str(), "..") || same_text(last.as_str(), ".") {
        None
    } else {
        Some(last)
    }
}

pub fn file_name(path: &str) -> (r: Option<String>)
    ensures
        text_opt(r) == file_name_spec(path@),
{
    last_component(&components(path))
}

/// What stands behind the last full stop of a file name that does not begin
/// with it.
pub open spec fn extension_spec(path: Seq<char>) -> Option<Seq<char>> {
    match file_name_spec(path) {
        Some(name) => if last_index(name, '.') > 0 {
            Some(name.skip(last_index(name, '.') + 1))
        } else {
            None
        },
        None => None,
    }
}

pub fn extension(path: &str) -> (r: Option<String>)
    ensures
        text_opt(r) == extension_spec(path@),
{
    match file_name(path) {
        Some(name) => {
            let chars = chars_of(name.as_str());
            match rfind_char(&chars, '.') {
                Some(i) => {
                    if i > 0 {
                        let ext = slice(&chars, i + 1, chars.len());
                        assert(ext@ =~= name@.skip(i + 1));
                        Some(ext)
                    } else {
                        None
                    }
                },
                None => None,
            }
        },
        None => None,
    }
}

/// A file name without its extension; nothing where the path names no file.
pub open spec fn stem_spec(path: Seq<char>) -> Seq<char> {
    match file_name_spec(path) {
        Some(name) => if last_index(name, '.') > 0 {
            name.take(last_index(name, '.'))
        } else {
            name
        },
        None => Seq::empty(),
    }
}

pub fn file_stem(path: &str) -> (r: String)
    ensures
        r@ == stem_spec(path@),
{
    match file_name(path) {
        Some(name) => {
            let chars = chars_of(name.as_str());
            match rfind_char(&chars, '.') {
                Some(i) => {
                    if i > 0 {
                        let stem = slice(&chars, 0, i);
                        assert(stem@ =~= name@.take(i as int));
                        stem
                    } else {
                        name
                    }
                },
                None => name,
            }
        },
        None => String::new(),
    }
}

/// A directory: whether it starts at the root, and its components.
pub ghost struct DirView {
    pub rooted: bool,
    pub parts: Seq<Seq<char>>,
}

/// The directory of a path, or the empty one.
pub open spec fn parent_of(dir: DirView) -> DirView {
    if dir.parts.len() == 0 {
        DirView { rooted: false, parts: seq![] }
    } else {
        DirView { rooted: dir.rooted, parts: dir.parts.drop_last() }
    }
}

pub open spec fn dir_view(path: Seq<char>) -> DirView {
    DirView { rooted: rooted(path), parts: path_components(path) }
}

/// A path that is taken apart.
pub struct Dir {
    pub rooted: bool,
    pub parts: Vec<String>,
}

impl View for Dir {
    type V = DirView;

    open spec fn view(&self) -> DirView {
        DirView { rooted: self.rooted, parts: texts(self.parts@) }
    }
}

impl Dir {
    pub fn of(path: &str) -> (r: Dir)
        ensures
            r@ == dir_view(path@),
    {
        let chars = chars_of(path);
        Dir { rooted: chars.len() > 0 && chars[0] == '/', parts: components(path) }
    }

    /// The directory above.
    pub fn into_parent(self) -> (r: Dir)
        ensures
            r@ == parent_of(self@),
    {
        let Dir { rooted, parts } = self;
        let mut parts = parts;
        let ghost before = texts(parts@);
        if parts.len() == 0 {
            assert(texts(parts@) =~= seq![]);
            Dir { rooted: false, parts }
        } else {
            let dropped = parts.pop();
            assert(texts(parts@) =~= before.drop_last());
            Dir { rooted, parts }
        }
    }

    pub fn same(&self, other: &Dir) -> (r: bool)
        ensures
            r == (self@ == other@),
    {
        self.rooted == other.rooted && same_texts(&self.parts, &other.parts)
    }
}

/// Whether two lists hold the same texts.
pub fn same_texts(a: &Vec<String>, b: &Vec<String>) -> (r: bool)
    ensures
        r == (texts(a@) == texts(b@)),
{
    assert(texts(a@).len() == a@.len() && texts(b@).len() == b@.len());
    if a.len() != b.len() {
        return false;
    }
    let mut i: usize = 0;
    while i < a.len()
        invariant
            a.len() == b.len(),
            i <= a.len(),
            forall|j: int| 0 <= j < i ==> texts(a@)[j] == texts(b@)[j],
        decreases a.len() - i,
    {
        if !same_text(a[i].as_str(), b[i].as_str()) {
            assert(texts(a@)[i as int] != texts(b@)[i as int]);
            return false;
        }
        i = i + 1;
    }
    assert(texts(a@) =~= texts(b@));
    true
}

/// The entry of a directory under which a path lies.
pub open spec fn storage_root(data_dir: Seq<char>, path: Seq<char>) -> Option<Seq<char>> {
    let dir = path_components(data_dir);
    let parts = path_components(path);
    if rooted(data_dir) == rooted(path) && dir.len() < parts.len() && parts.take(dir.len() as int)
        == dir && normal_component(parts[dir.len() as int]) {
        Some(in_dir(data_dir, parts[dir.len() as int]))
    } else {
        None
    }
}

pub fn top_level_storage_root(data_dir: &str, path: &str) -> (r: Option<String>)
    ensures
        text_opt(r) == storage_root(data_dir@, path@),
{
    let dir = Dir::of(data_dir);
    let full = Dir::of(path);
    let n = dir.parts.len();
    assert(dir.parts@.len() == texts(dir.parts@).len());
    assert(full.parts@.len() == texts(full.parts@).len());
    if dir.rooted != full.rooted || n >= full.parts.len() {
        return None;
    }
    let mut i: usize = 0;
    while i < n
        invariant
            n == dir.parts.len(),
            n < full.parts.len(),
            texts(dir.parts@) == path_components(data_dir@),
            texts(full.parts@) == path_components(path@),
            i <= n,
            forall|j: int| 0 <= j < i ==> texts(full.parts@)[j] == texts(dir.parts@)[j],
        decreases n - i,
    {
        if !same_text(dir.parts[i].as_str(), full.parts[i].as_str()) {
            assert(texts(full.parts@).take(n as int)[i as int] != texts(dir.parts@)[i as int]);
            return None;
        }
        i = i + 1;
    }
    assert(texts(full.parts@).take(n as int) =~= texts(dir.parts@));
    let first = full.parts[n].as_str();
    assert(first@ == texts(full.parts@)[n as int]);
    if same_text(first, "..") || same_text(first, ".") {
        None
    } else {
        Some(join_path(data_dir, first))
    }
}

/// Whether a component of a torrent's file stays inside its directory.
pub open spec fn safe_component(c: Seq<char>) -> bool {
    c.len() > 0 && c != "."@ && c != ".."@ && !c.contains('/') && !c.contains('\\')
}

pub open spec fn joined(folder: Seq<char>, components: Seq<Seq<char>>) -> Seq<char>
    decreases components.len(),
{
    if components.len() == 0 {
        folder
    } else {
        in_dir(joined(folder, components.drop_last()), components.last())
    }
}

fn is_safe_component(c: &str) -> (r: bool)
    ensures
        r == safe_component(c@),
{
    let chars = chars_of(c);
    let slash = crate::text::find_char(&chars, '/');
    let backslash = crate::text::find_char(&chars, '\\');
    proof {
        crate::text::lemma_first_index(c@, '/');
        crate::text::lemma_first_index(c@, '\\');
        if slash < chars.len() {
            assert(c@[slash as int] == '/');
        }
        if backslash < chars.len() {
            assert(c@[backslash as int] == '\\');
        }
    }
    chars.len() > 0 && !same_text(c, ".") && !same_text(c, "..") && slash == chars.len()
        && backslash == chars.len()
}

/// The path of a torrent's file; none where a component would lead out of the
/// folder.
pub fn join_storage_components(output_folder: &str, components: &Vec<String>) -> (r: Option<String>)
    ensures
        text_opt(r) == if forall|i: int|
            0 <= i < components@.len() ==> safe_component(#[trigger] texts(components@)[i]) {
            Some(joined(output_folder@, texts(components@)))
        } else {
            None
        },
{
    let mut path = output_folder.to_owned();
    let ghost all = texts(components@);
    let mut i: usize = 0;
    while i < components.len()
        invariant
            i <= components.len(),
            all == texts(components@),
            forall|j: int| 0 <= j < i ==> safe_component(#[trigger] all[j]),
            path@ == joined(output_folder@, all.take(i as int)),
        decreases components.len() - i,
    {
        let c = components[i].as_str();
        assert(c@ == all[i as int]);
        if !is_safe_component(c) {
            return None;
        }
        assert(all.take(i + 1).drop_last() =~= all.take(i as int));
        path = join_path(path.as_str(), c);
        i = i + 1;
    }
    assert(all.take(all.len() as int) =~= all);
    Some(path)
}

proof fn lemma_pieces_of_extension(base: Seq<char>, c: Seq<char>)
    requires
        !c.contains('/'),
    ensures
        pieces(base, Separator::At('/')).len() > 0,
        pieces(base + c, Separator::At('/')) == pieces(base, Separator::At('/')).drop_last().push(
            pieces(base, Separator::At('/')).last() + c,
        ),
    decreases base.len() + c.len(),
{
    let slash = Separator::At('/');
    if c.len() == 0 {
        assert(base + c =~= base);
        if base.len() > 0 {
            lemma_pieces_of_extension(base.drop_last(), c);
        }
        let all = pieces(base, slash);
        assert(all.last() + c =~= all.last());
        assert(all.drop_last().push(all.last()) =~= all);
    } else {
        let short = c.drop_last();
        assert(!short.contains('/')) by {
            if short.contains('/') {
                let k = choose|k: int| 0 <= k < short.len() && short[k] == '/';
                assert(c[k] == '/');
            }
        }
        lemma_pieces_of_extension(base, short);
        assert((base + c).drop_last() =~= base + short);
        assert(c[c.len() - 1] != '/');
        let before = pieces(base, slash);
        let some = before.drop_last().push(before.last() + short);
        assert(some.drop_last() =~= before.drop_last());
        assert((before.last() + short).push(c.last()) =~= before.last() + c);
    }
}

/// A component that is joined to a path is the path's last one, behind those
/// that it had.
proof fn lemma_joined_component(dir: Seq<char>, c: Seq<char>)
    requires
        safe_component(c),
    ensures
        path_components(in_dir(dir, c)) == path_components(dir).push(c),
{
    let slash = Separator::At('/');
    let kept = kept_pieces();
    reveal(Seq::filter);
    if dir.len() == 0 {
        lemma_pieces_of_extension(dir, c);
        assert(dir + c =~= c);
        assert(pieces(dir, slash).last() + c =~= c);
        assert(pieces(c, slash) =~= seq![c]);
        assert(seq![c].drop_last() =~= Seq::<Seq<char>>::empty());
        assert(pieces(dir, slash).drop_last() =~= Seq::<Seq<char>>::empty());
        assert(path_components(dir) =~= Seq::empty()) by {
            reveal_strlit(".");
        }
        assert(path_components(c) =~= seq![c]);
        assert(path_components(dir).push(c) =~= seq![c]);
    } else {
        let base = if dir.last() == '/' {
            dir
        } else {
            dir.push('/')
        };
        assert(dir.push('/').drop_last() =~= dir);
        lemma_pieces_of_extension(base, c);
        lemma_pieces_of_extension(base.drop_last(), Seq::empty());
        let head = pieces(base, slash).drop_last();
        assert(head =~= pieces(base.drop_last(), slash));
        assert(pieces(base, slash).last() + c =~= c);
        let all = pieces(base + c, slash);
        assert(all == head.push(c));
        assert(head.push(c).drop_last() =~= head);
        assert(all.filter(kept) == head.filter(kept).push(c));
        let own = pieces(dir, slash);
        if dir.last() == '/' {
            assert(own.drop_last() == head);
            assert(own.last().len() == 0);
            assert(own.filter(kept) == head.filter(kept));
        } else {
            assert(own == head);
        }
        assert(own[0] == all[0]);
        assert(path_components(base + c) =~= path_components(dir).push(c));
    }
}

/// A path that is joined from safe components begins with its folder, and its
/// components are those of the folder with the given ones behind them: none of
/// these leads up or is taken for more than one.
pub proof fn law_joined_path_stays_inside(folder: Seq<char>, components: Seq<Seq<char>>)
    requires
        forall|i: int| 0 <= i < components.len() ==> safe_component(#[trigger] components[i]),
    ensures
        crate::text::begins(joined(folder, components), folder),
        path_components(joined(folder, components)) == path_components(folder) + components,
        forall|i: int| 0 <= i < components.len() ==> normal_component(#[trigger] components[i]),
    decreases components.len(),
{
    if components.len() > 0 {
        let short = components.drop_last();
        assert forall|i: int| 0 <= i < short.len() implies safe_component(#[trigger] short[i]) by {
            assert(short[i] == components[i]);
        }
        law_joined_path_stays_inside(folder, short);
        let inner = joined(folder, short);
        let outer = joined(folder, components);
        assert(outer.subrange(0, folder.len() as int) =~= inner.subrange(0, folder.len() as int));
        assert(safe_component(components[components.len() - 1]));
        lemma_joined_component(inner, components.last());
        assert((path_components(folder) + short).push(components.last()) =~= path_components(folder)
            + components);
    } else {
        assert(folder.subrange(0, folder.len() as int) =~= folder);
        assert(path_components(folder) + components =~= path_components(folder));
    }
}

/// A part of a path is safe exactly where it is the name of one entry: not empty, no
/// step up or in place, and without a separator of any kind.
pub proof fn law_safe_components_are_names(c: Seq<char>, i: int)
    ensures
        safe_component(c) && 0 <= i < c.len() ==> c[i] != '/' && c[i] != '\\',
        safe_component(c) ==> c.len() > 0 && c != "."@ && c != ".."@,
        c.len() > 2 && (forall|j: int| 0 <= j < c.len() ==> #[trigger] c[j] != '/' && c[j] != '\\')
            ==> safe_component(c),
{
    reveal_strlit(".");
    reveal_strlit("..");
    if safe_component(c) && 0 <= i < c.len() {
        assert(c.contains(c[i]));
    }
}

/// What is stored in a directory below another one lies under the entry that its path
/// goes through first.
pub proof fn law_storage_lies_under_its_entry(dir: Seq<char>, components: Seq<Seq<char>>)
    requires
        components.len() > 0,
        dir.len() > 0,
        forall|i: int| 0 <= i < components.len() ==> safe_component(#[trigger] components[i]),
    ensures
        storage_root(dir, joined(dir, components)) == Some(joined(dir, components.take(1))),
        storage_root(dir, dir) is None,
{
    law_joined_path_stays_inside(dir, components);
    let path = joined(dir, components);
    assert(path.subrange(0, dir.len() as int)[0] == path[0]);
    let parts = path_components(path);
    let n = path_components(dir).len() as int;
    assert(parts.take(n) =~= path_components(dir));
    assert(parts[n] == components[0]);
    assert(safe_component(components[0]));
    let one = components.take(1);
    assert(one.drop_last() =~= Seq::<Seq<char>>::empty());
    assert(joined(dir, one.drop_last()) == dir);
    assert(one.last() == components[0]);
}

} // verus!
