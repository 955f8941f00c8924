//! Where a project begins.
use crate::text;
use crate::vfs::Vfs;
use crate::vfs::VfsView;
use vstd::prelude::*;
use vstd::string::*;

verus! {

/// The files that a project may begin with, the likeliest first.
pub open spec fn candidates() -> Seq<Seq<char>> {
    seq![
        "src/index.ts"@,
        "src/index.tsx"@,
        "src/main.ts"@,
        "index.ts"@,
        "index.js"@,
        "src/index.js"@,
    ]
}

/// The first of `names` that is a file below the root.
pub open spec fn first_present(
    files: Map<Seq<char>, Seq<u8>>,
    root: Seq<char>,
    names: Seq<Seq<char>>,
) -> Option<Seq<char>>
    decreases names.len(),
{
    if names.len() == 0 {
        None
    } else if files.contains_key(root + names[0]) {
        Some(root + names[0])
    } else {
        first_present(files, root, names.drop_first())
    }
}

/// Where a project begins: where the user says, if there is such a file, and
/// nowhere else then; without word from the user, at the first candidate that
/// is there.
pub open spec fn entry_point(
    vfs: VfsView,
    root: Seq<char>,
    manual: Option<Seq<char>>,
) -> Option<Seq<char>> {
    match manual {
        Some(path) => if vfs.files.contains_key(path) {
            Some(path)
        } else {
            None
        },
        None => first_present(vfs.files, root, candidates()),
    }
}

fn guess_entry_point(vfs: &Vfs, active_root: &str) -> (found: Option<String>)
    ensures
        text::opt_view(found) == first_present(vfs@.files, active_root@, candidates()),
{
    let names: Vec<&str> =
        vec![
        "src/index.ts",
        "src/index.tsx",
        "src/main.ts",
        "index.ts",
        "index.js",
        "src/index.js",
    ];
    let ghost all = candidates();
    assert(text::str_views(names@) =~= all);
    assert(all.skip(0) =~= all);
    for i in 0..names.len()
        invariant
            all == candidates(),
            text::str_views(names@) == all,
            first_present(vfs@.files, active_root@, all.skip(i as int)) == first_present(
                vfs@.files,
                active_root@,
                all,
            ),
    {
        assert(all[i as int] == names@[i as int]@);
        assert(all.skip(i as int).drop_first() =~= all.skip(i + 1));
        let mut path = active_root.to_string();
        path.append(names[i]);
        if vfs.file_exists(&path) {
            return Some(path);
        }
    }
    None
}

/// Where a project begins.
pub fn resolve_entry_point(vfs: &Vfs, active_root: &str, manual_override: Option<&str>) -> (found:
    Option<String>)
    ensures
        text::opt_view(found) == entry_point(
            vfs@,
            active_root@,
            text::opt_str_view(manual_override),
        ),
{
    match manual_override {
        Some(path) => {
            if vfs.file_exists(path) {
                Some(path.to_string())
            } else {
                None
            }
        },
        None => guess_entry_point(vfs, active_root),
    }
}

/// An entry point, however it is found, is a file of the project.
pub proof fn law_entry_points_exist(vfs: VfsView, root: Seq<char>, manual: Option<Seq<char>>)
    ensures
        entry_point(vfs, root, manual) matches Some(path) ==> vfs.files.contains_key(path),
{
    lemma_first_present_exists(vfs.files, root, candidates());
}

proof fn lemma_first_present_exists(
    files: Map<Seq<char>, Seq<u8>>,
    root: Seq<char>,
    names: Seq<Seq<char>>,
)
    ensures
        first_present(files, root, names) matches Some(path) ==> files.contains_key(path),
    decreases names.len(),
{
    if names.len() > 0 {
        lemma_first_present_exists(files, root, names.drop_first());
    }
}

/// What the user says is taken or refused, never replaced.
pub proof fn law_the_user_decides(vfs: VfsView, root: Seq<char>, path: Seq<char>)
    ensures
        entry_point(vfs, root, Some(path)) == Some(path) <==> vfs.files.contains_key(path),
        entry_point(vfs, root, Some(path)) is None <==> !vfs.files.contains_key(path),
{
}

/// Without word from the user a project begins at `src/index.ts`, failing that
/// at `src/index.tsx`, then `src/main.ts`, `index.ts`, `index.js` and
/// `src/index.js`, all of them below the root, and nowhere else.
pub proof fn law_guesses_have_an_order(vfs: VfsView, root: Seq<char>)
    ensures
        entry_point(vfs, root, None) == {
            if vfs.files.contains_key(root + "src/index.ts"@) {
                Some(root + "src/index.ts"@)
            } else if vfs.files.contains_key(root + "src/index.tsx"@) {
                Some(root + "src/index.tsx"@)
            } else if vfs.files.contains_key(root + "src/main.ts"@) {
                Some(root + "src/main.ts"@)
            } else if vfs.files.contains_key(root + "index.ts"@) {
                Some(root + "index.ts"@)
            } else if vfs.files.contains_key(root + "index.js"@) {
                Some(root + "index.js"@)
            } else if vfs.files.contains_key(root + "src/index.js"@) {
                Some(root + "src/index.js"@)
            } else {
                None
            }
        },
{
    let all = candidates();
    reveal_with_fuel(first_present, 7);
    assert(all[0] == "src/index.ts"@);
    assert(all[1] == "src/index.tsx"@);
    assert(all[2] == "src/main.ts"@);
    assert(all[3] == "index.ts"@);
    assert(all[4] == "index.js"@);
    assert(all[5] == "src/index.js"@);
    assert(all.drop_first()[0] == all[1]);
    assert(all.drop_first().drop_first()[0] == all[2]);
    assert(all.drop_first().drop_first().drop_first()[0] == all[3]);
    assert(all.drop_first().drop_first().drop_first().drop_first()[0] == all[4]);
    assert(all.drop_first().drop_first().drop_first().drop_first().drop_first()[0] == all[5]);
}

} // verus!
