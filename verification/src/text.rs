//! Module names: from file paths, and in lists without repeats.

use crate::protocol::Url;
use vstd::prelude::*;
use vstd::string::*;

verus! {

/// The extension of a source file.
pub open spec fn source_extension() -> Seq<char> {
    seq!['.', 'g', 'l', 'e', 'a', 'm']
}

/// The index of the first `/` of a path from `from` on, or the length of
/// the path where there is none.
pub open spec fn first_slash(path: Seq<char>, from: int) -> int
    decreases path.len() - from,
{
    if from >= path.len() {
        path.len() as int
    } else if from >= 0 && path[from] == '/' {
        from
    } else {
        first_slash(path, from + 1)
    }
}

/// The name of the module that a file holds, for a file of a project. The
/// path of such a file is the project's root, a `/`, the name of one
/// directory (such as `src` or `test`), a `/`, the name of the module,
/// which may hold further `/`, and the extension `.gleam`. Other paths
/// name no module.
pub open spec fn module_name_of(path: Seq<char>, root: Seq<char>) -> Option<Seq<char>> {
    let name_start = first_slash(path, (root.len() + 1) as int) + 1;
    let name_end = path.len() - source_extension().len();
    if root.is_prefix_of(path) && path.len() > root.len() && path[root.len() as int] == '/'
        && name_start <= name_end && path.subrange(name_end, path.len() as int)
        == source_extension() {
        Some(path.subrange(name_start, name_end))
    } else {
        None
    }
}

/// A list of names with the repeats taken out: each name once, where it
/// first occurs.
pub open spec fn without_repeats(names: Seq<Seq<char>>) -> Seq<Seq<char>>
    decreases names.len(),
{
    if names.len() == 0 {
        Seq::empty()
    } else if without_repeats(names.drop_last()).contains(names.last()) {
        without_repeats(names.drop_last())
    } else {
        without_repeats(names.drop_last()).push(names.last())
    }
}

/// A list without its repeats holds no name twice, and holds exactly the
/// names of the list.
pub proof fn lemma_without_repeats(names: Seq<Seq<char>>)
    ensures
        without_repeats(names).no_duplicates(),
        forall|name: Seq<char>| #[trigger]
            without_repeats(names).contains(name) <==> names.contains(name),
    decreases names.len(),
{
    if names.len() > 0 {
        let shorter = names.drop_last();
        let rest = without_repeats(shorter);
        lemma_without_repeats(shorter);
        assert forall|name: Seq<char>| #[trigger]
            without_repeats(names).contains(name) <==> names.contains(name) by {
            if names.contains(name) {
                let i = choose|i: int| 0 <= i < names.len() && names[i] == name;
                if i < names.len() - 1 {
                    assert(shorter[i] == name);
                    assert(shorter.contains(name));
                }
                if !rest.contains(names.last()) {
                    assert(rest.push(names.last())[rest.len() as int] == names.last());
                    if rest.contains(name) {
                        let k = choose|k: int| 0 <= k < rest.len() && rest[k] == name;
                        assert(rest.push(names.last())[k] == name);
                    }
                }
            }
            if without_repeats(names).contains(name) {
                let k = choose|k: int|
                    0 <= k < without_repeats(names).len() && without_repeats(names)[k] == name;
                if k < rest.len() {
                    assert(rest[k] == name);
                    assert(rest.contains(name));
                    let i = choose|i: int| 0 <= i < shorter.len() && shorter[i] == name;
                    assert(names[i] == name);
                } else {
                    assert(names[names.len() - 1] == name);
                }
            }
        }
    }
}

/// Whether no name occurs twice in a list of names.
pub open spec fn distinct_names(names: Seq<String>) -> bool {
    forall|i: int, j: int|
        #![trigger names[i], names[j]]
        0 <= i < j < names.len() ==> names[i]@ != names[j]@
}

/// Whether no name occurs twice in a list of names.
pub fn names_are_distinct(names: &Vec<String>) -> (yes: bool)
    ensures
        yes == distinct_names(names@),
{
    let mut i: usize = 0;
    while i < names.len()
        invariant
            i <= names@.len(),
            forall|a: int, b: int|
                #![trigger names@[a], names@[b]]
                0 <= a < b < i ==> names@[a]@ != names@[b]@,
        decreases names@.len() - i,
    {
        let mut j: usize = 0;
        while j < i
            invariant
                j <= i < names@.len(),
                forall|a: int| 0 <= a < j ==> (#[trigger] names@[a])@ != names@[i as int]@,
            decreases i - j,
        {
            if names[j] == names[i] {
                assert(names@[j as int]@ == names@[i as int]@);
                return false;
            }
            j += 1;
        }
        i += 1;
    }
    true
}

/// The characters of a text.
pub fn chars_of(text: &str) -> (chars: Vec<char>)
    ensures
        chars@ == text@,
{
    broadcast use group_string_axioms;

    let mut chars: Vec<char> = Vec::new();
    for c in it: text.chars()
        invariant
            it.seq() == text@,
            chars@ == it.seq().take(it.index() as int),
    {
        chars.push(c);
    }
    chars
}

/// Whether `path` begins with the characters of `root`.
fn starts_with(path: &Vec<char>, root: &Vec<char>) -> (yes: bool)
    ensures
        yes == root@.is_prefix_of(path@),
{
    if root.len() > path.len() {
        return false;
    }
    let mut i: usize = 0;
    while i < root.len()
        invariant
            i <= root@.len() <= path@.len(),
            forall|k: int| 0 <= k < i ==> root@[k] == path@[k],
        decreases root@.len() - i,
    {
        if root[i] != path[i] {
            assert(path@.subrange(0, root@.len() as int)[i as int] == path@[i as int]);
            return false;
        }
        i += 1;
    }
    assert(root@ =~= path@.subrange(0, root@.len() as int));
    true
}

/// Whether `path` ends with the extension of a source file.
fn ends_with_extension(path: &Vec<char>) -> (yes: bool)
    ensures
        yes == (path@.len() >= source_extension().len() && path@.subrange(
            path@.len() - source_extension().len(),
            path@.len() as int,
        ) == source_extension()),
{
    let n: usize = path.len();
    if n < 6 {
        return false;
    }
    let ghost tail = path@.subrange(n - 6, n as int);
    assert(tail[0] == path@[n - 6] && tail[1] == path@[n - 5] && tail[2] == path@[n - 4]
        && tail[3] == path@[n - 3] && tail[4] == path@[n - 2] && tail[5] == path@[n - 1]);
    let yes: bool = path[n - 6] == '.' && path[n - 5] == 'g' && path[n - 4] == 'l' && path[n - 3]
        == 'e' && path[n - 2] == 'a' && path[n - 1] == 'm';
    if yes {
        assert(tail =~= source_extension());
    }
    yes
}

/// The name of the module that the file behind a URL holds, for a file of
/// the project with the given root.
pub fn uri_to_module_name(uri: &Url, root: &str) -> (name: Option<String>)
    ensures
        name.deep_view() == module_name_of(uri.path@, root@),
{
    let path = chars_of(uri.path.as_str());
    let base = chars_of(root);
    if !starts_with(&path, &base) || path.len() <= base.len() || path[base.len()] != '/' {
        return None;
    }
    let mut slash: usize = base.len() + 1;
    while slash < path.len() && path[slash] != '/'
        invariant
            base@.len() + 1 <= slash <= path@.len(),
            first_slash(path@, (base@.len() + 1) as int) == first_slash(path@, slash as int),
        decreases path@.len() - slash,
    {
        slash += 1;
    }
    if !ends_with_extension(&path) || slash >= path.len() - 6 {
        return None;
    }
    let name = uri.path.as_str().substring_char(slash + 1, path.len() - 6);
    Some(name.to_owned())
}

} // verus!
