//! Paths as byte strings with `/` between their components.
//!
//! A path is compared component by component: repeated separators, a trailing
//! separator and `.` components in the middle do not count. Nothing here looks at
//! a file system.

use vstd::prelude::*;

verus! {

/// The byte `/`, which stands between two components of a path.
pub const SEPARATOR: u8 = 0x2f;

/// The byte `.`.
pub const DOT: u8 = 0x2e;

/// The component that stands for the root directory of a rooted path.
pub open spec fn root_dir() -> Seq<u8> {
    seq![SEPARATOR]
}

/// The component `.`, the current directory.
pub open spec fn cur_dir() -> Seq<u8> {
    seq![DOT]
}

/// The component `..`, the parent directory.
pub open spec fn parent_dir() -> Seq<u8> {
    seq![DOT, DOT]
}

/// The maximal runs of bytes without a separator in `path`, in order.
pub open spec fn names(path: Seq<u8>) -> Seq<Seq<u8>>
    decreases path.len(),
{
    if path.len() == 0 {
        Seq::empty()
    } else {
        let before = names(path.drop_last());
        if path.last() == SEPARATOR {
            before
        } else if path.len() >= 2 && path[path.len() - 2] != SEPARATOR {
            before.drop_last().push(before.last().push(path.last()))
        } else {
            before.push(seq![path.last()])
        }
    }
}

/// `names` with every `.` taken out.
pub open spec fn without_cur_dirs(names: Seq<Seq<u8>>) -> Seq<Seq<u8>>
    decreases names.len(),
{
    if names.len() == 0 {
        names
    } else if names.last() == cur_dir() {
        without_cur_dirs(names.drop_last())
    } else {
        without_cur_dirs(names.drop_last()).push(names.last())
    }
}

/// Whether `path` begins at the root directory.
pub open spec fn is_rooted(path: Seq<u8>) -> bool {
    path.len() > 0 && path[0] == SEPARATOR
}

/// Whether `path` begins with a `.` component.
pub open spec fn begins_with_cur_dir(path: Seq<u8>) -> bool {
    path.len() > 0 && path[0] == DOT && (path.len() == 1 || path[1] == SEPARATOR)
}

/// The component that a path begins with before any of its names, if it has one:
/// the root directory for a rooted path, `.` for a path that starts with it.
pub open spec fn head(path: Seq<u8>) -> Seq<Seq<u8>> {
    if is_rooted(path) {
        seq![root_dir()]
    } else if begins_with_cur_dir(path) {
        seq![cur_dir()]
    } else {
        Seq::empty()
    }
}

/// The components of `path`.
///
/// A rooted path begins with `root_dir()`. Then come its names, without the `.`
/// ones, except that a path which is not rooted and starts with `.` keeps that one
/// in front. `..` is a component like any name.
pub open spec fn components(path: Seq<u8>) -> Seq<Seq<u8>> {
    head(path) + without_cur_dirs(names(path))
}

/// Whether `base` is a prefix of `path`, counted in whole components.
pub open spec fn within(path: Seq<u8>, base: Seq<u8>) -> bool {
    components(base).is_prefix_of(components(path))
}

/// `rel` joined onto `base`: a rooted `rel` replaces `base`; otherwise `rel` follows
/// `base`, with a separator between them unless `base` is empty or ends with one.
pub open spec fn joined(base: Seq<u8>, rel: Seq<u8>) -> Seq<u8> {
    if is_rooted(rel) {
        rel
    } else if base.len() == 0 || base.last() == SEPARATOR {
        base + rel
    } else {
        base + seq![SEPARATOR] + rel
    }
}

/// The text of a rooted path that has the given names: a separator before each name.
pub open spec fn rooted_text(names: Seq<Seq<u8>>) -> Seq<u8>
    decreases names.len(),
{
    if names.len() == 0 {
        Seq::empty()
    } else {
        rooted_text(names.drop_last()) + seq![SEPARATOR] + names.last()
    }
}

/// Whether `path` is written in canonical form: the root directory alone, or a
/// separator and a name for each of its names, none of which is `.` or `..`.
///
/// Whether the names are symbolic links is the file system's to say, not the text's.
pub open spec fn is_canonical(path: Seq<u8>) -> bool {
    ||| path == root_dir()
    ||| {
        &&& names(path).len() > 0
        &&& path == rooted_text(names(path))
        &&& forall|k: int|
            0 <= k < names(path).len() ==> (#[trigger] names(path)[k]) != cur_dir() && names(
                path,
            )[k] != parent_dir()
    }
}

/// Whether `path` is `base` or goes on after `base` with a separator: the prefix
/// match on text.
pub open spec fn extends_text(path: Seq<u8>, base: Seq<u8>) -> bool {
    ||| path == base
    ||| {
        &&& path.len() > base.len()
        &&& path.take(base.len() as int) == base
        &&& path[base.len() as int] == SEPARATOR
    }
}

/// The last component of `path` where that is a name: not the root directory, `.` or `..`.
pub open spec fn file_name(path: Seq<u8>) -> Option<Seq<u8>> {
    let all = components(path);
    if all.len() > 0 && all.last() != root_dir() && all.last() != cur_dir() && all.last()
        != parent_dir() {
        Some(all.last())
    } else {
        None
    }
}

/// Where the last `.` of `name` stands, or -1 if it has none.
pub open spec fn last_dot(name: Seq<u8>) -> int
    decreases name.len(),
{
    if name.len() == 0 {
        -1
    } else if name.last() == DOT {
        name.len() - 1
    } else {
        last_dot(name.drop_last())
    }
}

/// The extension of a file name: what follows its last `.`, unless the name has no
/// `.` or only the one it begins with.
pub open spec fn name_extension(name: Seq<u8>) -> Option<Seq<u8>> {
    if last_dot(name) > 0 {
        Some(name.skip(last_dot(name) + 1))
    } else {
        None
    }
}

/// The extension of the file that `path` names, if it names one and that has one.
pub open spec fn extension_of(path: Seq<u8>) -> Option<Seq<u8>> {
    match file_name(path) {
        Some(name) => name_extension(name),
        None => None,
    }
}

/// Whether `name` can stand as one component: not empty, not `.`, and without a separator.
pub open spec fn is_plain_name(name: Seq<u8>) -> bool {
    &&& name.len() > 0
    &&& name != cur_dir()
    &&& forall|i: int| 0 <= i < name.len() ==> name[i] != SEPARATOR
}

/// The views of the vectors in `v`.
pub open spec fn views(v: Seq<Vec<u8>>) -> Seq<Seq<u8>> {
    v.map_values(|bytes: Vec<u8>| bytes@)
}

/// An extension is what follows the last `.` of a name that has more before it.
///
/// For every name: if it has an extension, the name is a non-empty stem, a `.`, and
/// the extension, and the extension holds no `.`; if it has none, the name holds no
/// `.` after its first byte.
pub proof fn extension_splits_name(name: Seq<u8>)
    ensures
        match name_extension(name) {
            Some(ext) => {
                &&& 0 < last_dot(name) < name.len()
                &&& name == name.take(last_dot(name)) + seq![DOT] + ext
                &&& forall|i: int| 0 <= i < ext.len() ==> ext[i] != DOT
            },
            None => forall|i: int| 0 < i < name.len() ==> name[i] != DOT,
        },
{
    last_dot_is_the_last(name);
}

/// `last_dot` finds a `.`, and the last one.
///
/// For every name, `last_dot` is -1 or the place of a `.` in the name, and no `.`
/// stands after it.
pub proof fn last_dot_is_the_last(name: Seq<u8>)
    ensures
        -1 <= last_dot(name) < name.len(),
        last_dot(name) >= 0 ==> name[last_dot(name)] == DOT,
        forall|i: int| last_dot(name) < i < name.len() ==> name[i] != DOT,
    decreases name.len(),
{
    if name.len() > 0 && name.last() != DOT {
        let shorter = name.drop_last();
        last_dot_is_the_last(shorter);
        assert forall|i: int| last_dot(name) < i < name.len() implies name[i] != DOT by {
            if i < shorter.len() {
                assert(name[i] == shorter[i]);
            }
        }
    }
}

proof fn lemma_names_of_open_end(path: Seq<u8>)
    requires
        path.len() > 0,
        path.last() != SEPARATOR,
    ensures
        names(path).len() > 0,
    decreases path.len(),
{
    if path.len() >= 2 && path[path.len() - 2] != SEPARATOR {
        lemma_names_of_open_end(path.drop_last());
    }
}

/// A separator parts the names before it from the names after it.
///
/// For every `front` and `back`, the names of `front`, a separator and `back` are
/// the names of `front` followed by the names of `back`.
pub proof fn separator_parts_names(front: Seq<u8>, back: Seq<u8>)
    ensures
        names(front + seq![SEPARATOR] + back) == names(front) + names(back),
    decreases back.len(),
{
    let whole = front + seq![SEPARATOR] + back;
    if back.len() == 0 {
        assert(whole.drop_last() =~= front);
    } else {
        let shorter = back.drop_last();
        separator_parts_names(front, shorter);
        assert(whole.drop_last() =~= front + seq![SEPARATOR] + shorter);
        if back.last() != SEPARATOR && shorter.len() > 0 && shorter.last() != SEPARATOR {
            lemma_names_of_open_end(shorter);
        }
    }
}

proof fn lemma_without_cur_dirs_joined(first: Seq<Seq<u8>>, second: Seq<Seq<u8>>)
    ensures
        without_cur_dirs(first + second) == without_cur_dirs(first) + without_cur_dirs(second),
    decreases second.len(),
{
    if second.len() > 0 {
        lemma_without_cur_dirs_joined(first, second.drop_last());
        assert((first + second).drop_last() =~= first + second.drop_last());
    }
}

proof fn lemma_without_cur_dirs_of_none(names: Seq<Seq<u8>>)
    requires
        forall|k: int| 0 <= k < names.len() ==> (#[trigger] names[k]) != cur_dir(),
    ensures
        without_cur_dirs(names) == names,
    decreases names.len(),
{
    if names.len() > 0 {
        lemma_without_cur_dirs_of_none(names.drop_last());
    }
}

proof fn lemma_rooted_text_joined(first: Seq<Seq<u8>>, second: Seq<Seq<u8>>)
    ensures
        rooted_text(first + second) == rooted_text(first) + rooted_text(second),
        second.len() > 0 ==> rooted_text(second).len() > 0 && rooted_text(second)[0] == SEPARATOR,
    decreases second.len(),
{
    if second.len() > 0 {
        lemma_rooted_text_joined(first, second.drop_last());
        assert((first + second).drop_last() =~= first + second.drop_last());
    }
}

proof fn lemma_canonical_components(path: Seq<u8>)
    requires
        is_canonical(path),
    ensures
        components(path) == seq![root_dir()] + names(path),
        path == root_dir() ==> names(path).len() == 0,
        path != root_dir() ==> names(path).len() > 0 && path == rooted_text(names(path)),
{
    if path == root_dir() {
        assert(names(path.drop_last()).len() == 0);
    } else {
        lemma_rooted_text_joined(Seq::empty(), names(path));
    }
    lemma_without_cur_dirs_of_none(names(path));
}

/// Within a canonical root, paths are told by their text.
///
/// For every canonical `root` and canonical `path`: `path` is within `root` exactly
/// when `root` is the root directory, or `path` is `root`, or `path` is `root`, a
/// separator, and more.
pub proof fn within_canonical_is_prefix(path: Seq<u8>, root: Seq<u8>)
    requires
        is_canonical(path),
        is_canonical(root),
    ensures
        within(path, root) <==> root == root_dir() || extends_text(path, root),
{
    lemma_canonical_components(path);
    lemma_canonical_components(root);
    let of_path = names(path);
    let of_root = names(root);
    let all = components(path);
    let base = components(root);
    if root == root_dir() || path == root {
        // Every rooted path begins with the root directory, and with itself.
    } else if within(path, root) {
        assert forall|k: int| 0 <= k < of_root.len() implies of_root[k] == of_path[k] by {
            assert(base[k + 1] == all[k + 1]);
        }
        let extra = of_path.skip(of_root.len() as int);
        assert(of_path =~= of_root + extra);
        lemma_rooted_text_joined(of_root, extra);
        assert(path.take(root.len() as int) =~= root);
    } else if extends_text(path, root) {
        let rest = path.skip(root.len() as int + 1);
        assert(path =~= path.take(root.len() as int) + seq![SEPARATOR] + rest);
        separator_parts_names(root, rest);
        lemma_without_cur_dirs_joined(of_root, names(rest));
    }
}

proof fn lemma_names_after_separator(front: Seq<u8>, name: Seq<u8>)
    requires
        front.len() == 0 || front.last() == SEPARATOR,
        name.len() > 0,
        forall|i: int| 0 <= i < name.len() ==> name[i] != SEPARATOR,
    ensures
        names(front + name) == names(front).push(name),
    decreases name.len(),
{
    let whole = front + name;
    let shorter = name.drop_last();
    assert(whole.drop_last() =~= front + shorter);
    if shorter.len() == 0 {
        assert(name =~= seq![name.last()]);
    } else {
        lemma_names_after_separator(front, shorter);
        assert(shorter.push(name.last()) =~= name);
    }
}

/// Joining a plain name onto a path adds exactly that component.
///
/// For every `base` and every name that is not empty, not `.` and holds no separator,
/// the components of the joined path are those of `base` followed by the name.
pub proof fn join_appends_name(base: Seq<u8>, name: Seq<u8>)
    requires
        is_plain_name(name),
    ensures
        components(joined(base, name)) == components(base).push(name),
{
    let path = joined(base, name);
    if base.len() == 0 {
        lemma_names_after_separator(base, name);
    } else if base.last() == SEPARATOR {
        lemma_names_after_separator(base, name);
    } else {
        let front = base.push(SEPARATOR);
        assert(front.drop_last() =~= base);
        assert(names(front) == names(base));
        assert(path =~= front + name);
        lemma_names_after_separator(front, name);
    }
    assert(names(path) == names(base).push(name));
    assert(names(path).drop_last() =~= names(base));
}

/// What lies within a directory stays within it when a plain name is joined on.
///
/// For every `root`, every `dir` within `root`, and every plain `name`, the path
/// `dir` joined with `name` is within `root` too.
pub proof fn join_stays_within(root: Seq<u8>, dir: Seq<u8>, name: Seq<u8>)
    requires
        within(dir, root),
        is_plain_name(name),
    ensures
        within(joined(dir, name), root),
{
    join_appends_name(dir, name);
}

/// Whether two byte strings are the same.
pub fn same_bytes(a: &[u8], b: &[u8]) -> (same: bool)
    ensures
        same == (a@ == b@),
{
    if a.len() != b.len() {
        return false;
    }
    let mut i: usize = 0;
    while i < a.len()
        invariant
            i <= a.len(),
            a.len() == b.len(),
            a@.take(i as int) == b@.take(i as int),
        decreases a.len() - i,
    {
        if a[i] != b[i] {
            return false;
        }
        i = i + 1;
    }
    assert(a@.take(i as int) =~= a@);
    assert(b@.take(i as int) =~= b@);
    true
}

/// Joins `rel` onto `base`.
pub fn join(base: &[u8], rel: &[u8]) -> (out: Vec<u8>)
    ensures
        out@ == joined(base@, rel@),
{
    let mut out: Vec<u8> = Vec::new();
    if rel.len() > 0 && rel[0] == SEPARATOR {
        out.extend_from_slice(rel);
    } else {
        out.extend_from_slice(base);
        if base.len() > 0 && base[base.len() - 1] != SEPARATOR {
            out.push(SEPARATOR);
        }
        out.extend_from_slice(rel);
    }
    out
}

/// Adds `name` to `out` unless it is `.`.
fn keep_name(out: &mut Vec<Vec<u8>>, name: Vec<u8>)
    ensures
        views(final(out)@) == if name@ == cur_dir() {
            views(old(out)@)
        } else {
            views(old(out)@).push(name@)
        },
{
    let dot = [DOT];
    assert(dot@ =~= cur_dir());
    if !same_bytes(name.as_slice(), dot.as_slice()) {
        out.push(name);
    }
}

/// Splits `path` into its components.
pub fn path_components(path: &[u8]) -> (out: Vec<Vec<u8>>)
    ensures
        views(out@) == components(path@),
{
    let mut out: Vec<Vec<u8>> = Vec::new();
    if path.len() > 0 && path[0] == SEPARATOR {
        let mut root: Vec<u8> = Vec::new();
        root.push(SEPARATOR);
        out.push(root);
    } else if path.len() > 0 && path[0] == DOT && (path.len() == 1 || path[1] == SEPARATOR) {
        let mut dot: Vec<u8> = Vec::new();
        dot.push(DOT);
        out.push(dot);
    }
    let mut cur: Vec<u8> = Vec::new();
    let mut i: usize = 0;
    while i < path.len()
        invariant
            i <= path.len(),
            cur@.len() == 0 ==> (i == 0 || path@[i - 1] == SEPARATOR) && views(out@) == head(path@)
                + without_cur_dirs(names(path@.take(i as int))),
            cur@.len() > 0 ==> i > 0 && path@[i - 1] != SEPARATOR && names(
                path@.take(i as int),
            ).len() > 0 && cur@ == names(path@.take(i as int)).last() && views(out@) == head(path@)
                + without_cur_dirs(names(path@.take(i as int)).drop_last()),
        decreases path.len() - i,
    {
        let b: u8 = path[i];
        let ghost before = names(path@.take(i as int));
        let ghost now = path@.take(i + 1);
        assert(now.drop_last() =~= path@.take(i as int));
        if b == SEPARATOR {
            if cur.len() > 0 {
                keep_name(&mut out, cur);
                cur = Vec::new();
            }
        } else {
            let ghost was = cur@;
            cur.push(b);
            proof {
                if was.len() == 0 {
                    assert(names(now).drop_last() =~= before);
                } else {
                    assert(names(now).drop_last() =~= before.drop_last());
                }
            }
        }
        i = i + 1;
    }
    assert(path@.take(i as int) =~= path@);
    if cur.len() > 0 {
        keep_name(&mut out, cur);
    }
    out
}

/// Whether `base` is a prefix of `path`, counted in whole components.
pub fn starts_with(path: &[u8], base: &[u8]) -> (yes: bool)
    ensures
        yes == within(path@, base@),
{
    let whole = path_components(path);
    let prefix = path_components(base);
    if prefix.len() > whole.len() {
        return false;
    }
    let mut i: usize = 0;
    while i < prefix.len()
        invariant
            i <= prefix.len() <= whole.len(),
            views(whole@) == components(path@),
            views(prefix@) == components(base@),
            components(base@).take(i as int) == components(path@).take(i as int),
        decreases prefix.len() - i,
    {
        if !same_bytes(whole[i].as_slice(), prefix[i].as_slice()) {
            assert(components(base@)[i as int] != components(path@)[i as int]);
            return false;
        }
        i = i + 1;
    }
    true
}

/// The extension of the file that `path` names.
pub fn extension(path: &[u8]) -> (ext: Option<Vec<u8>>)
    ensures
        match ext {
            Some(bytes) => extension_of(path@) == Some(bytes@),
            None => extension_of(path@) is None,
        },
{
    let all = path_components(path);
    if all.len() == 0 {
        return None;
    }
    let name = all[all.len() - 1].as_slice();
    let root = [SEPARATOR];
    let dot = [DOT];
    let dots = [DOT, DOT];
    assert(root@ =~= root_dir());
    if same_bytes(name, root.as_slice()) || same_bytes(name, dot.as_slice()) || same_bytes(
        name,
        dots.as_slice(),
    ) {
        return None;
    }
    let mut seen: bool = false;
    let mut at: usize = 0;
    let mut i: usize = 0;
    while i < name.len()
        invariant
            i <= name.len(),
            seen ==> at < i,
            last_dot(name@.take(i as int)) == if seen {
                at as int
            } else {
                -1
            },
        decreases name.len() - i,
    {
        assert(name@.take(i + 1).drop_last() =~= name@.take(i as int));
        if name[i] == DOT {
            seen = true;
            at = i;
        }
        i = i + 1;
    }
    assert(name@.take(i as int) =~= name@);
    if seen && at > 0 {
        let tail = vstd::slice::slice_subrange(name, at + 1, name.len());
        Some(vstd::slice::slice_to_vec(tail))
    } else {
        None
    }
}

} // verus!
