//! Paths as text: components, file name, stem and extension, joining, and the
//! order by which testcases are sorted.
//!
//! A path is a sequence of characters with `/` as the separator. Repeated
//! separators and `.` segments after the first do not count as components.

use crate::text::{
    chars_of, copy_range, find_last, last_index, lemma_last_index, push_all, split, split_chars,
    string_of, views,
};
use vstd::prelude::*;

verus! {

/// One component of a path, as a mathematical value.
pub enum PathComponent {
    /// The root, written as a leading `/`.
    RootDir,
    /// A leading `.`.
    CurDir,
    /// A `..` segment.
    ParentDir,
    /// Any other non-empty segment.
    Normal(Seq<char>),
}

/// One component of a path.
#[derive(Debug)]
pub enum Component {
    /// The root, written as a leading `/`.
    RootDir,
    /// A leading `.`.
    CurDir,
    /// A `..` segment.
    ParentDir,
    /// Any other non-empty segment.
    Normal(Vec<char>),
}

impl View for Component {
    type V = PathComponent;

    open spec fn view(&self) -> PathComponent {
        match self {
            Component::RootDir => PathComponent::RootDir,
            Component::CurDir => PathComponent::CurDir,
            Component::ParentDir => PathComponent::ParentDir,
            Component::Normal(name) => PathComponent::Normal(name@),
        }
    }
}

/// The mathematical values of a list of components.
pub open spec fn component_views(parts: Seq<Component>) -> Seq<PathComponent> {
    parts.map_values(|c: Component| c@)
}

/// The component that one segment between separators stands for, if any.
/// `leading` says that the segment is the first of its path.
pub open spec fn segment_component(seg: Seq<char>, leading: bool) -> Option<PathComponent> {
    if seg.len() == 0 {
        None
    } else if seg == seq!['.'] {
        if leading {
            Some(PathComponent::CurDir)
        } else {
            None
        }
    } else if seg == seq!['.', '.'] {
        Some(PathComponent::ParentDir)
    } else {
        Some(PathComponent::Normal(seg))
    }
}

/// The components that the first `n` segments stand for.
pub open spec fn segment_components(segs: Seq<Seq<char>>, n: int) -> Seq<PathComponent>
    decreases n,
{
    if n <= 0 {
        Seq::empty()
    } else {
        let before = segment_components(segs, n - 1);
        match segment_component(segs[n - 1], n == 1) {
            Some(c) => before.push(c),
            None => before,
        }
    }
}

/// The components of a path: the root if the path starts with `/`, then one
/// component for each segment that stands for one.
pub open spec fn components_of(path: Seq<char>) -> Seq<PathComponent> {
    let segs = split(path, '/');
    let root = if path.len() > 0 && path[0] == '/' {
        seq![PathComponent::RootDir]
    } else {
        Seq::empty()
    };
    root + segment_components(segs, segs.len() as int)
}

/// The file name of a path: its last component, where that is a normal one.
pub open spec fn file_name_of(path: Seq<char>) -> Option<Seq<char>> {
    let parts = components_of(path);
    if parts.len() > 0 {
        match parts.last() {
            PathComponent::Normal(name) => Some(name),
            _ => None,
        }
    } else {
        None
    }
}

/// The stem of a file name: the part before its last `.`, or the whole name
/// where it has no `.` or only a leading one.
pub open spec fn name_stem(name: Seq<char>) -> Seq<char> {
    let dot = last_index(name, '.');
    if dot <= 0 {
        name
    } else {
        name.subrange(0, dot)
    }
}

/// The extension of a file name: the part after its last `.`, or none where
/// the name has no `.` or only a leading one.
pub open spec fn name_extension(name: Seq<char>) -> Option<Seq<char>> {
    let dot = last_index(name, '.');
    if dot <= 0 {
        None
    } else {
        Some(name.subrange(dot + 1, name.len() as int))
    }
}

/// The stem of the file name of a path.
pub open spec fn file_stem_of(path: Seq<char>) -> Option<Seq<char>> {
    match file_name_of(path) {
        Some(name) => Some(name_stem(name)),
        None => None,
    }
}

/// The extension of the file name of a path.
pub open spec fn extension_of(path: Seq<char>) -> Option<Seq<char>> {
    match file_name_of(path) {
        Some(name) => name_extension(name),
        None => None,
    }
}

/// `name` below the directory `dir`: `name` alone where it starts at the
/// root, else `dir`, a separator unless `dir` is empty or ends in one, and
/// `name`.
pub open spec fn join_of(dir: Seq<char>, name: Seq<char>) -> Seq<char> {
    if name.len() > 0 && name[0] == '/' {
        name
    } else if dir.len() > 0 && dir.last() != '/' {
        dir + seq!['/'] + name
    } else {
        dir + name
    }
}

/// The components of a path, in order.
pub fn components(path: &Vec<char>) -> (parts: Vec<Component>)
    ensures
        component_views(parts@) == components_of(path@),
{
    let segs = split_chars(path, '/');
    let mut parts: Vec<Component> = Vec::new();
    if path.len() > 0 && path[0] == '/' {
        parts.push(Component::RootDir);
    }
    let ghost root = component_views(parts@);
    assert(root =~= if path@.len() > 0 && path@[0] == '/' {
        seq![PathComponent::RootDir]
    } else {
        Seq::empty()
    });
    let mut i: usize = 0;
    assert(component_views(parts@) =~= root + segment_components(views(segs@), 0));
    while i < segs.len()
        invariant
            i <= segs.len(),
            component_views(parts@) == root + segment_components(views(segs@), i as int),
        decreases segs.len() - i,
    {
        let seg = &segs[i];
        let ghost before = component_views(parts@);
        let ghost found = segment_component(views(segs@)[i as int], i == 0);
        assert(views(segs@)[i as int] == seg@);
        if seg.len() == 0 {
            assert(found is None);
        } else if seg.len() == 1 && seg[0] == '.' {
            assert(seg@ =~= seq!['.']);
            if i == 0 {
                parts.push(Component::CurDir);
                assert(component_views(parts@) =~= before.push(PathComponent::CurDir));
            }
        } else if seg.len() == 2 && seg[0] == '.' && seg[1] == '.' {
            assert(seg@ =~= seq!['.', '.']);
            assert(seg@ != seq!['.']);
            parts.push(Component::ParentDir);
            assert(component_views(parts@) =~= before.push(PathComponent::ParentDir));
        } else {
            assert(seg@ != seq!['.']) by {
                if seg@ == seq!['.'] {
                    assert(seg@.len() == 1 && seg@[0] == '.');
                }
            }
            assert(seg@ != seq!['.', '.']) by {
                if seg@ == seq!['.', '.'] {
                    assert(seg@.len() == 2 && seg@[0] == '.' && seg@[1] == '.');
                }
            }
            let name = copy_range(seg, 0, seg.len());
            assert(name@ =~= seg@);
            parts.push(Component::Normal(name));
            assert(component_views(parts@) =~= before.push(PathComponent::Normal(seg@)));
        }
        assert(component_views(parts@) =~= root + segment_components(views(segs@), i + 1));
        i += 1;
    }
    parts
}

/// The file name of a path, as characters.
pub fn file_name_chars(path: &Vec<char>) -> (r: Option<Vec<char>>)
    ensures
        match r {
            Some(name) => file_name_of(path@) == Some(name@),
            None => file_name_of(path@) is None,
        },
{
    let mut parts = components(path);
    let ghost all = parts@;
    assert(component_views(all).len() == all.len());
    match parts.pop() {
        Some(Component::Normal(name)) => {
            assert(component_views(all).last() == all.last()@);
            Some(name)
        },
        Some(other) => {
            assert(component_views(all).last() == all.last()@);
            None
        },
        None => None,
    }
}

/// Cuts a file name at its last `.` into stem and extension.
pub fn split_name(name: &Vec<char>) -> (r: (Vec<char>, Option<Vec<char>>))
    ensures
        r.0@ == name_stem(name@),
        match r.1 {
            Some(ext) => name_extension(name@) == Some(ext@),
            None => name_extension(name@) is None,
        },
{
    proof {
        lemma_last_index(name@, '.');
    }
    match find_last(name, '.') {
        Some(dot) => {
            if dot == 0 {
                let stem = copy_range(name, 0, name.len());
                assert(stem@ =~= name@);
                (stem, None)
            } else {
                (copy_range(name, 0, dot), Some(copy_range(name, dot + 1, name.len())))
            }
        },
        None => {
            let stem = copy_range(name, 0, name.len());
            assert(stem@ =~= name@);
            (stem, None)
        },
    }
}

/// The file name of a path: its last component, unless the path ends in the
/// root, in `..` or in nothing at all.
pub fn file_name(path: &str) -> (r: Option<String>)
    ensures
        match r {
            Some(name) => file_name_of(path@) == Some(name@),
            None => file_name_of(path@) is None,
        },
{
    let chars = chars_of(path);
    match file_name_chars(&chars) {
        Some(name) => Some(string_of(&name)),
        None => None,
    }
}

/// The stem of the file name of a path: the name without its extension.
pub fn file_stem(path: &str) -> (r: Option<String>)
    ensures
        match r {
            Some(stem) => file_stem_of(path@) == Some(stem@),
            None => file_stem_of(path@) is None,
        },
{
    let chars = chars_of(path);
    match file_name_chars(&chars) {
        Some(name) => {
            let (stem, _ext) = split_name(&name);
            Some(string_of(&stem))
        },
        None => None,
    }
}

/// The extension of the file name of a path: what follows the last `.` of a
/// name that has one after its first character.
pub fn extension(path: &str) -> (r: Option<String>)
    ensures
        match r {
            Some(ext) => extension_of(path@) == Some(ext@),
            None => extension_of(path@) is None,
        },
{
    let chars = chars_of(path);
    match file_name_chars(&chars) {
        Some(name) => {
            let (_stem, ext) = split_name(&name);
            match ext {
                Some(ext) => Some(string_of(&ext)),
                None => None,
            }
        },
        None => None,
    }
}

/// Whether the file name of `path` has exactly the extension `ext`.
pub fn has_extension(path: &str, ext: &str) -> (r: bool)
    ensures
        r == (extension_of(path@) == Some(ext@)),
{
    match extension(path) {
        Some(found) => crate::text::str_eq(found.as_str(), ext),
        None => false,
    }
}

/// The path of `name` below the directory `dir`.
pub fn join(dir: &str, name: &str) -> (r: String)
    ensures
        r@ == join_of(dir@, name@),
{
    let d = chars_of(dir);
    let n = chars_of(name);
    if n.len() > 0 && n[0] == '/' {
        return string_of(&n);
    }
    let mut out: Vec<char> = Vec::new();
    push_all(&mut out, &d);
    if d.len() > 0 && d[d.len() - 1] != '/' {
        out.push('/');
    }
    push_all(&mut out, &n);
    assert(out@ =~= join_of(dir@, name@));
    string_of(&out)
}

/// The path of the file in `dir` that has the stem of `target` and the
/// extension `ext`; none where `target` ends in no file name.
pub open spec fn renamed_in(dir: Seq<char>, target: Seq<char>, ext: Seq<char>) -> Option<Seq<char>> {
    match file_stem_of(target) {
        Some(stem) => Some(join_of(dir, stem + seq!['.'] + ext)),
        None => None,
    }
}

/// The path of the directory in `dir` that is named by the stem of `target`;
/// none where `target` ends in no file name.
pub open spec fn subdirectory_of(dir: Seq<char>, target: Seq<char>) -> Option<Seq<char>> {
    match file_stem_of(target) {
        Some(stem) => Some(join_of(dir, stem)),
        None => None,
    }
}

/// The path of the file in `dir` that has the stem of `target` and the
/// extension `ext`.
pub fn rename_in(dir: &str, target: &str, ext: &str) -> (r: Option<String>)
    ensures
        match r {
            Some(path) => renamed_in(dir@, target@, ext@) == Some(path@),
            None => renamed_in(dir@, target@, ext@) is None,
        },
{
    let chars = chars_of(target);
    match file_name_chars(&chars) {
        Some(file) => {
            let (stem, _ext) = split_name(&file);
            let mut name = stem;
            name.push('.');
            crate::text::push_str(&mut name, ext);
            let name = string_of(&name);
            Some(join(dir, name.as_str()))
        },
        None => None,
    }
}

/// The path of the directory in `dir` that is named by the stem of `target`.
pub fn subdirectory(dir: &str, target: &str) -> (r: Option<String>)
    ensures
        match r {
            Some(path) => subdirectory_of(dir@, target@) == Some(path@),
            None => subdirectory_of(dir@, target@) is None,
        },
{
    match file_stem(target) {
        Some(stem) => Some(join(dir, stem.as_str())),
        None => None,
    }
}

/// Whether a text can be the name of a file: it is not empty, holds no
/// separator, and is neither `.` nor `..`.
pub open spec fn is_file_name(name: Seq<char>) -> bool {
    &&& name.len() > 0
    &&& !name.contains('/')
    &&& name != seq!['.']
    &&& name != seq!['.', '.']
}

/// The last of the components of some segments is that of the last segment,
/// where that segment stands for a normal component.
proof fn lemma_last_segment(segs: Seq<Seq<char>>, n: int)
    requires
        1 <= n <= segs.len(),
        is_file_name(segs[n - 1]),
    ensures
        segment_components(segs, n).len() > 0,
        segment_components(segs, n).last() == PathComponent::Normal(segs[n - 1]),
{
}

/// A file in a directory has its own name as its file name: for a directory
/// path that is empty or ends in a separator, the file name of the path of
/// `name` in it is `name`.
pub proof fn lemma_file_name_in_directory(dir: Seq<char>, name: Seq<char>)
    requires
        dir.len() == 0 || dir.last() == '/',
        is_file_name(name),
    ensures
        file_name_of(dir + name) == Some(name),
{
    let path = dir + name;
    let segs = split(path, '/');
    if dir.len() == 0 {
        assert(path =~= name);
        crate::text::lemma_split_single(name, '/');
        lemma_last_segment(segs, 1);
    } else {
        let head = dir.drop_last();
        assert(path =~= head + seq!['/'] + name);
        crate::text::lemma_split_last(head, '/', name);
        lemma_last_segment(segs, segs.len() as int);
    }
}

} // verus!
