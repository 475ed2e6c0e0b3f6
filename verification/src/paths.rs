//! Rules that map an archive entry's path to its place under a profile.
//!
//! Paths are `/`-separated strings. A profile holds the loader's tree
//! `BepInEx/` with the areas `config/`, `plugins/` and `patchers/`; every mod
//! has a private folder `BepInEx/plugins/<mod name>` in it.
//!
//! Only entries with a safe name are written. The test is made on the name
//! as it stands: a name with a component `..` or with a backslash is refused
//! even where following it would end inside the profile, as `a/../b` does.
//! Such entries are dropped, so that every path written is one that no `..`
//! leads out of.

use crate::text::{
    chars_eq, chars_eq_ignore_case, copy_chars, ends_with, eq_ignore_case, find_char, first_index,
    from_chars, last_index, lemma_first_index_is_first, lemma_last_index_is_last, lower, push_all,
    push_str, rfind_char, slice, split_once, split_once_chars, starts_with, to_chars, to_lower,
};
use vstd::prelude::*;

verus! {

/// `s` without its first `p.len()` characters.
pub open spec fn after(s: Seq<char>, p: Seq<char>) -> Seq<char> {
    s.skip(p.len() as int)
}

/// The path with its loader prefix in canonical case: a first component that
/// reads `bepinex` in any case becomes `BepInEx`, and the component after it,
/// where one follows, is put in lower case.
pub open spec fn normalized(path: Seq<char>) -> Seq<char> {
    match split_once(path, '/') {
        Some((root, rest)) => if eq_ignore_case(root, "BepInEx"@) {
            match split_once(rest, '/') {
                Some((area, tail)) => "BepInEx/"@ + lower(area) + "/"@ + tail,
                None => "BepInEx/"@ + rest,
            }
        } else {
            path
        },
        None => path,
    }
}

/// The last component of a path: what follows its last `/`.
pub open spec fn last_component(path: Seq<char>) -> Seq<char> {
    match last_index(path, '/') {
        Some(i) => path.skip(i + 1),
        None => path,
    }
}

/// The directory is named `plugins`, in any case.
pub open spec fn is_plugins_dir(dir: Seq<char>) -> bool {
    eq_ignore_case(last_component(dir), "plugins"@)
}

/// Walks from `cur` towards the root of the archive until the parent is a
/// directory named `plugins`, and gives the prefix that stands for the mod's
/// root: that directory itself where `file` lies directly in it, else its child
/// on the way to `file`. With no such directory on the way the walk ends at
/// the root, `/`.
pub open spec fn hint_walk(file: Seq<char>, cur: Seq<char>) -> Seq<char>
    decreases cur.len(),
{
    match last_index(cur, '/') {
        Some(i) => {
            let parent = cur.take(i);
            if is_plugins_dir(parent) {
                if cur == file {
                    parent + "/"@
                } else {
                    cur + "/"@
                }
            } else {
                hint_walk(file, parent)
            }
        },
        None => "/"@,
    }
}

/// The mod root that a plugin binary at `file` points to.
pub open spec fn hint_of(file: Seq<char>) -> Seq<char> {
    hint_walk(file, file)
}

/// The name is that of a plugin binary.
pub open spec fn is_plugin_binary(name: Seq<char>) -> bool {
    ".dll"@.is_suffix_of(name)
}

/// The mod root hint of an archive: that of its last plugin binary, or the
/// wildcard `*` where it holds none.
pub open spec fn root_hint(names: Seq<Seq<char>>) -> Seq<char>
    decreases names.len(),
{
    if names.len() == 0 {
        "*"@
    } else if is_plugin_binary(names.last()) {
        hint_of(normalized(names.last()))
    } else {
        root_hint(names.drop_last())
    }
}

/// The private folder of a mod in a profile.
pub open spec fn mod_folder_of(profile: Seq<char>, mod_name: Seq<char>) -> Seq<char> {
    profile + "/BepInEx/plugins/"@ + mod_name
}

/// `path` lies within the mod root that `hint` names.
pub open spec fn in_hint(path: Seq<char>, hint: Seq<char>) -> bool {
    hint != "*"@ && hint.is_prefix_of(path)
}

/// The directory that holds `path` is named `plugins`.
pub open spec fn parent_is_plugins(path: Seq<char>) -> bool {
    match last_index(path, '/') {
        Some(i) => last_component(path.take(i)) == "plugins"@,
        None => false,
    }
}

/// Where a file of the plugins area goes. `path` is the whole normalized
/// path and `rel` what follows the area's prefix in it.
pub open spec fn plugins_target(
    path: Seq<char>,
    rel: Seq<char>,
    hint: Seq<char>,
    profile: Seq<char>,
    mod_name: Seq<char>,
) -> Seq<char> {
    if in_hint(path, hint) {
        mod_folder_of(profile, mod_name) + "/"@ + after(path, hint)
    } else if parent_is_plugins(path) {
        mod_folder_of(profile, mod_name) + "/"@ + rel
    } else if in_hint(rel, hint) {
        profile + "/BepInEx/plugins/"@ + after(rel, hint)
    } else {
        profile + "/BepInEx/plugins/"@ + rel
    }
}

/// Where the file at the normalized path `path` goes.
pub open spec fn routed(
    path: Seq<char>,
    hint: Seq<char>,
    profile: Seq<char>,
    mod_name: Seq<char>,
) -> Seq<char> {
    if "BepInEx/"@.is_prefix_of(path) {
        let sub = after(path, "BepInEx/"@);
        if "config/"@.is_prefix_of(sub) {
            profile + "/BepInEx/config/"@ + after(sub, "config/"@)
        } else if "plugins/"@.is_prefix_of(sub) {
            plugins_target(path, after(sub, "plugins/"@), hint, profile, mod_name)
        } else if "patchers/"@.is_prefix_of(sub) {
            mod_folder_of(profile, mod_name) + "/"@ + after(sub, "patchers/"@)
        } else {
            profile + "/BepInEx/plugins/"@ + sub
        }
    } else if "config/"@.is_prefix_of(path) {
        profile + "/BepInEx/config/"@ + after(path, "config/"@)
    } else if "plugins/"@.is_prefix_of(path) {
        plugins_target(path, after(path, "plugins/"@), hint, profile, mod_name)
    } else if "patchers/"@.is_prefix_of(path) {
        mod_folder_of(profile, mod_name) + "/"@ + after(path, "patchers/"@)
    } else if path.contains('/') {
        profile + "/BepInEx/plugins/"@ + path
    } else {
        mod_folder_of(profile, mod_name) + "/"@ + path
    }
}

/// Where the archive entry `entry` goes: its path is normalized, then routed.
pub open spec fn target_path(
    entry: Seq<char>,
    hint: Seq<char>,
    profile: Seq<char>,
    mod_name: Seq<char>,
) -> Seq<char> {
    routed(normalized(entry), hint, profile, mod_name)
}

/// The target lies outside the mod's private folder.
pub open spec fn is_external(target: Seq<char>, profile: Seq<char>, mod_name: Seq<char>) -> bool {
    !(mod_folder_of(profile, mod_name) + "/"@).is_prefix_of(target)
}

/// A component `..` starts at offset `i` of `path`.
pub open spec fn parent_component_at(path: Seq<char>, i: int) -> bool {
    &&& 0 <= i
    &&& i + 2 <= path.len()
    &&& path[i] == '.'
    &&& path[i + 1] == '.'
    &&& (i == 0 || path[i - 1] == '/')
    &&& (i + 2 == path.len() || path[i + 2] == '/')
}

/// The entry's name can be put under a directory without leaving it: it is
/// not empty, not absolute, holds no NUL and no backslash, and none of its
/// components is `..`. A name like `a/../b` is refused with the rest.
pub open spec fn is_safe_name(name: Seq<char>) -> bool {
    &&& name.len() > 0
    &&& name[0] != '/'
    &&& !name.contains('\0')
    &&& !name.contains('\\')
    &&& forall|i: int| !parent_component_at(name, i)
}

/// The entry's name is that of a directory.
pub open spec fn is_dir_name(name: Seq<char>) -> bool {
    name.len() > 0 && name.last() == '/'
}

/// A file of the plugins area that lies within the mod root hint goes into the
/// mod's private folder, with the hint taken off its path, and is not
/// external.
pub proof fn lemma_hinted_plugin_is_private(
    path: Seq<char>,
    hint: Seq<char>,
    profile: Seq<char>,
    mod_name: Seq<char>,
)
    requires
        "BepInEx/plugins/"@.is_prefix_of(path) || "plugins/"@.is_prefix_of(path),
        in_hint(path, hint),
    ensures
        routed(path, hint, profile, mod_name) == mod_folder_of(profile, mod_name) + "/"@ + after(
            path,
            hint,
        ),
        !is_external(routed(path, hint, profile, mod_name), profile, mod_name),
{
    reveal_strlit("BepInEx/plugins/");
    reveal_strlit("BepInEx/");
    reveal_strlit("plugins/");
    reveal_strlit("config/");
    reveal_strlit("patchers/");
    let folder = mod_folder_of(profile, mod_name) + "/"@;
    let target = folder + after(path, hint);
    assert(target.subrange(0, folder.len() as int) =~= folder);
    if "BepInEx/plugins/"@.is_prefix_of(path) {
        let sub = after(path, "BepInEx/"@);
        assert("BepInEx/"@ =~= path.subrange(0, 16).subrange(0, 8));
        assert(path.subrange(0, 8) =~= path.subrange(0, 16).subrange(0, 8));
        assert("plugins/"@ =~= path.subrange(0, 16).subrange(8, 16));
        assert(sub.subrange(0, 8) =~= path.subrange(0, 16).subrange(8, 16));
        assert(sub.subrange(0, 8)[0] == sub[0]);
        assert(sub[0] == 'p');
        assert("config/"@[0] == 'c');
        assert(!"config/"@.is_prefix_of(sub)) by {
            if "config/"@.is_prefix_of(sub) {
                assert(sub.subrange(0, 7)[0] == 'c');
            }
        }
    } else {
        assert(path[0] == 'p') by {
            assert(path.subrange(0, 8)[0] == 'p');
        }
        assert(!"BepInEx/"@.is_prefix_of(path)) by {
            if "BepInEx/"@.is_prefix_of(path) {
                assert(path.subrange(0, 8)[0] == 'B');
            }
        }
        assert(!"config/"@.is_prefix_of(path)) by {
            if "config/"@.is_prefix_of(path) {
                assert(path.subrange(0, 7)[0] == 'c');
            }
        }
    }
}

/// A file of the config area goes to the profile's shared config area,
/// whatever the hint is, and is external to every mod.
pub proof fn lemma_config_is_shared(
    rest: Seq<char>,
    hint: Seq<char>,
    profile: Seq<char>,
    mod_name: Seq<char>,
)
    ensures
        routed("config/"@ + rest, hint, profile, mod_name) == profile + "/BepInEx/config/"@ + rest,
        routed("BepInEx/config/"@ + rest, hint, profile, mod_name) == profile
            + "/BepInEx/config/"@ + rest,
        is_external(profile + "/BepInEx/config/"@ + rest, profile, mod_name),
{
    reveal_strlit("BepInEx/config/");
    reveal_strlit("BepInEx/");
    reveal_strlit("config/");
    reveal_strlit("/BepInEx/config/");
    reveal_strlit("/BepInEx/plugins/");
    let short = "config/"@ + rest;
    let long = "BepInEx/config/"@ + rest;
    assert(short.subrange(0, 7) =~= "config/"@);
    assert(after(short, "config/"@) =~= rest);
    assert(!"BepInEx/"@.is_prefix_of(short)) by {
        if "BepInEx/"@.is_prefix_of(short) {
            assert(short.subrange(0, 8)[0] == 'B');
            assert(short[0] == 'c');
        }
    }
    assert(long.subrange(0, 8) =~= "BepInEx/"@);
    let sub = after(long, "BepInEx/"@);
    assert(sub =~= "config/"@ + rest);
    assert(sub.subrange(0, 7) =~= "config/"@);
    assert(after(sub, "config/"@) =~= rest);
    let target = profile + "/BepInEx/config/"@ + rest;
    let folder = mod_folder_of(profile, mod_name) + "/"@;
    if folder.is_prefix_of(target) {
        let k: int = profile.len() as int + 9;
        assert(target.subrange(0, folder.len() as int)[k] == target[k]);
        assert(target[k] == 'c');
        assert(folder[k] == 'p');
    }
}

/// No component of the path is `..`.
pub open spec fn has_no_parent(path: Seq<char>) -> bool {
    forall|i: int| !parent_component_at(path, i)
}

/// The hint is the wildcard, or it names a folder: it ends in `/`.
pub open spec fn is_hint(hint: Seq<char>) -> bool {
    hint == "*"@ || (hint.len() > 0 && hint.last() == '/')
}

/// `target` is a path below `profile`, and no `..` in it leads back out.
pub open spec fn stays_under(target: Seq<char>, profile: Seq<char>) -> bool {
    &&& profile.is_prefix_of(target)
    &&& target.len() > profile.len()
    &&& target[profile.len() as int] == '/'
    &&& has_no_parent(target.skip(profile.len() as int))
}

/// What follows a `/` in a path without `..` is a path without `..`.
proof fn lemma_skip_no_parent(s: Seq<char>, k: int)
    requires
        has_no_parent(s),
        0 <= k <= s.len(),
        k == 0 || s[k - 1] == '/',
    ensures
        has_no_parent(s.skip(k)),
{
    assert forall|i: int| !parent_component_at(s.skip(k), i) by {
        if parent_component_at(s.skip(k), i) {
            assert(parent_component_at(s, i + k));
        }
    }
}

/// What stands before a `/` in a path without `..` is a path without `..`.
proof fn lemma_take_no_parent(s: Seq<char>, k: int)
    requires
        has_no_parent(s),
        0 <= k <= s.len(),
        k == s.len() || s[k] == '/',
    ensures
        has_no_parent(s.take(k)),
{
    assert forall|i: int| !parent_component_at(s.take(k), i) by {
        if parent_component_at(s.take(k), i) {
            assert(parent_component_at(s, i));
        }
    }
}

/// Two paths without `..`, joined at a `/`, make a path without `..`.
proof fn lemma_join_no_parent(a: Seq<char>, b: Seq<char>)
    requires
        has_no_parent(a),
        has_no_parent(b),
        a.len() == 0 || a.last() == '/' || (b.len() > 0 && b[0] == '/'),
    ensures
        has_no_parent(a + b),
{
    let whole = a + b;
    assert forall|i: int| !parent_component_at(whole, i) by {
        if parent_component_at(whole, i) {
            if i + 2 <= a.len() {
                assert(parent_component_at(a, i));
            } else if i >= a.len() {
                assert(parent_component_at(b, i - a.len()));
            }
        }
    }
}

/// Lower case brings no `..` into a path.
proof fn lemma_lower_no_parent(s: Seq<char>)
    requires
        has_no_parent(s),
    ensures
        has_no_parent(lower(s)),
{
    assert forall|i: int| !parent_component_at(lower(s), i) by {
        if parent_component_at(lower(s), i) {
            assert(parent_component_at(s, i));
        }
    }
}

/// Normalizing brings no `..` into a path.
pub proof fn lemma_normalized_no_parent(path: Seq<char>)
    requires
        has_no_parent(path),
    ensures
        has_no_parent(normalized(path)),
{
    reveal_strlit("BepInEx/");
    reveal_strlit("/");
    lemma_first_index_is_first(path, '/');
    match split_once(path, '/') {
        Some((root, rest)) => {
            if eq_ignore_case(root, "BepInEx"@) {
                let i = first_index(path, '/')->0;
                lemma_skip_no_parent(path, i + 1);
                lemma_first_index_is_first(rest, '/');
                match split_once(rest, '/') {
                    Some((area, tail)) => {
                        let j = first_index(rest, '/')->0;
                        lemma_take_no_parent(rest, j);
                        lemma_skip_no_parent(rest, j + 1);
                        lemma_lower_no_parent(area);
                        lemma_join_no_parent("/"@, tail);
                        lemma_join_no_parent(lower(area), "/"@ + tail);
                        lemma_join_no_parent("BepInEx/"@, lower(area) + ("/"@ + tail));
                        assert("BepInEx/"@ + lower(area) + "/"@ + tail =~= "BepInEx/"@ + (lower(
                            area,
                        ) + ("/"@ + tail)));
                    },
                    None => {
                        lemma_join_no_parent("BepInEx/"@, rest);
                    },
                }
            }
        },
        None => {},
    }
}

/// The target `profile + area + tail` stays under the profile where the
/// area begins and ends with `/` and neither it nor the tail holds a `..`.
proof fn lemma_under_area(profile: Seq<char>, area: Seq<char>, tail: Seq<char>)
    requires
        area.len() > 0,
        area[0] == '/',
        area.last() == '/',
        has_no_parent(area),
        has_no_parent(tail),
    ensures
        stays_under(profile + area + tail, profile),
{
    lemma_join_no_parent(area, tail);
    let target = profile + area + tail;
    assert(target.skip(profile.len() as int) =~= area + tail);
    assert(target.subrange(0, profile.len() as int) =~= profile);
}

/// The private folder of a mod, with a `/` behind it, written from the
/// profile on, begins and ends with `/` and holds no `..` where the mod's
/// name holds none.
proof fn lemma_mod_area(mod_name: Seq<char>)
    requires
        has_no_parent(mod_name),
    ensures
        ({
            let area = "/BepInEx/plugins/"@ + mod_name + "/"@;
            area.len() > 0 && area[0] == '/' && area.last() == '/' && has_no_parent(area)
        }),
{
    reveal_strlit("/BepInEx/plugins/");
    reveal_strlit("/");
    lemma_join_no_parent(mod_name, "/"@);
    lemma_join_no_parent("/BepInEx/plugins/"@, mod_name + "/"@);
    assert("/BepInEx/plugins/"@ + mod_name + "/"@ =~= "/BepInEx/plugins/"@ + (mod_name + "/"@));
}

/// A file of the plugins area goes to a place under the profile.
proof fn lemma_plugins_target_stays_under(
    path: Seq<char>,
    rel: Seq<char>,
    hint: Seq<char>,
    profile: Seq<char>,
    mod_name: Seq<char>,
)
    requires
        has_no_parent(path),
        has_no_parent(rel),
        has_no_parent(mod_name),
        is_hint(hint),
    ensures
        stays_under(plugins_target(path, rel, hint, profile, mod_name), profile),
{
    reveal_strlit("/BepInEx/plugins/");
    lemma_mod_area(mod_name);
    let private = "/BepInEx/plugins/"@ + mod_name + "/"@;
    if in_hint(path, hint) {
        assert(path[hint.len() - 1] == hint.last()) by {
            assert(path.subrange(0, hint.len() as int)[hint.len() - 1] == path[hint.len() - 1]);
        }
        lemma_skip_no_parent(path, hint.len() as int);
        lemma_under_area(profile, private, after(path, hint));
        assert(mod_folder_of(profile, mod_name) + "/"@ + after(path, hint) =~= profile + private
            + after(path, hint));
    } else if parent_is_plugins(path) {
        lemma_under_area(profile, private, rel);
        assert(mod_folder_of(profile, mod_name) + "/"@ + rel =~= profile + private + rel);
    } else if in_hint(rel, hint) {
        assert(rel[hint.len() - 1] == hint.last()) by {
            assert(rel.subrange(0, hint.len() as int)[hint.len() - 1] == rel[hint.len() - 1]);
        }
        lemma_skip_no_parent(rel, hint.len() as int);
        lemma_under_area(profile, "/BepInEx/plugins/"@, after(rel, hint));
    } else {
        lemma_under_area(profile, "/BepInEx/plugins/"@, rel);
    }
}

/// What follows a prefix that ends in `/` in a path without `..` is a path
/// without `..`.
proof fn lemma_after_no_parent(path: Seq<char>, prefix: Seq<char>)
    requires
        has_no_parent(path),
        prefix.is_prefix_of(path),
        prefix.len() > 0,
        prefix.last() == '/',
    ensures
        has_no_parent(after(path, prefix)),
{
    assert(path[prefix.len() - 1] == prefix.last()) by {
        assert(path.subrange(0, prefix.len() as int)[prefix.len() - 1] == path[prefix.len() - 1]);
    }
    lemma_skip_no_parent(path, prefix.len() as int);
}

/// A file whose normalized path holds no `..` goes to a place under the
/// profile from which no `..` leads out, whatever the hint, where the mod's
/// name holds no `..` either.
pub proof fn lemma_routed_stays_under(
    path: Seq<char>,
    hint: Seq<char>,
    profile: Seq<char>,
    mod_name: Seq<char>,
)
    requires
        has_no_parent(path),
        has_no_parent(mod_name),
        is_hint(hint),
    ensures
        stays_under(routed(path, hint, profile, mod_name), profile),
{
    reveal_strlit("BepInEx/");
    reveal_strlit("config/");
    reveal_strlit("plugins/");
    reveal_strlit("patchers/");
    reveal_strlit("/BepInEx/config/");
    reveal_strlit("/BepInEx/plugins/");
    lemma_mod_area(mod_name);
    let private = "/BepInEx/plugins/"@ + mod_name + "/"@;
    if "BepInEx/"@.is_prefix_of(path) {
        let sub = after(path, "BepInEx/"@);
        lemma_after_no_parent(path, "BepInEx/"@);
        if "config/"@.is_prefix_of(sub) {
            lemma_after_no_parent(sub, "config/"@);
            lemma_under_area(profile, "/BepInEx/config/"@, after(sub, "config/"@));
        } else if "plugins/"@.is_prefix_of(sub) {
            lemma_after_no_parent(sub, "plugins/"@);
            lemma_plugins_target_stays_under(
                path,
                after(sub, "plugins/"@),
                hint,
                profile,
                mod_name,
            );
        } else if "patchers/"@.is_prefix_of(sub) {
            lemma_after_no_parent(sub, "patchers/"@);
            let tail = after(sub, "patchers/"@);
            lemma_under_area(profile, private, tail);
            assert(mod_folder_of(profile, mod_name) + "/"@ + tail =~= profile + private + tail);
        } else {
            lemma_under_area(profile, "/BepInEx/plugins/"@, sub);
        }
    } else if "config/"@.is_prefix_of(path) {
        lemma_after_no_parent(path, "config/"@);
        lemma_under_area(profile, "/BepInEx/config/"@, after(path, "config/"@));
    } else if "plugins/"@.is_prefix_of(path) {
        lemma_after_no_parent(path, "plugins/"@);
        lemma_plugins_target_stays_under(path, after(path, "plugins/"@), hint, profile, mod_name);
    } else if "patchers/"@.is_prefix_of(path) {
        lemma_after_no_parent(path, "patchers/"@);
        let tail = after(path, "patchers/"@);
        lemma_under_area(profile, private, tail);
        assert(mod_folder_of(profile, mod_name) + "/"@ + tail =~= profile + private + tail);
    } else if path.contains('/') {
        lemma_under_area(profile, "/BepInEx/plugins/"@, path);
    } else {
        lemma_under_area(profile, private, path);
        assert(mod_folder_of(profile, mod_name) + "/"@ + path =~= profile + private + path);
    }
}

/// The hint of every plugin binary names a folder.
proof fn lemma_hint_walk_is_hint(file: Seq<char>, cur: Seq<char>)
    ensures
        is_hint(hint_walk(file, cur)),
    decreases cur.len(),
{
    reveal_strlit("/");
    lemma_last_index_is_last(cur, '/');
    match last_index(cur, '/') {
        Some(i) => {
            let parent = cur.take(i);
            if !is_plugins_dir(parent) {
                lemma_hint_walk_is_hint(file, parent);
            }
        },
        None => {},
    }
}

/// The mod root hint of every archive is the wildcard or names a folder.
pub proof fn lemma_root_hint_is_hint(names: Seq<Seq<char>>)
    ensures
        is_hint(root_hint(names)),
    decreases names.len(),
{
    if names.len() > 0 {
        if is_plugin_binary(names.last()) {
            lemma_hint_walk_is_hint(normalized(names.last()), normalized(names.last()));
        } else {
            lemma_root_hint_is_hint(names.drop_last());
        }
    }
}

pub(crate) fn after_chars(s: &Vec<char>, p: &Vec<char>) -> (r: Vec<char>)
    requires
        p.len() <= s.len(),
    ensures
        r@ == after(s@, p@),
{
    slice(s, p.len(), s.len())
}

pub(crate) fn normalize_chars(path: &Vec<char>) -> (r: Vec<char>)
    ensures
        r@ == normalized(path@),
{
    match split_once_chars(path, '/') {
        Some((root, rest)) => {
            let canonical = to_chars("BepInEx");
            if chars_eq_ignore_case(&root, &canonical) {
                let mut out = to_chars("BepInEx/");
                match split_once_chars(&rest, '/') {
                    Some((area, tail)) => {
                        let low = to_lower(&area);
                        push_all(&mut out, &low);
                        push_str(&mut out, "/");
                        push_all(&mut out, &tail);
                    },
                    None => {
                        push_all(&mut out, &rest);
                    },
                }
                out
            } else {
                copy_chars(path)
            }
        },
        None => copy_chars(path),
    }
}

pub(crate) fn last_component_chars(path: &Vec<char>) -> (r: Vec<char>)
    ensures
        r@ == last_component(path@),
{
    match rfind_char(path, '/') {
        Some(i) => {
            let n = path.len();
            slice(path, i + 1, n)
        },
        None => copy_chars(path),
    }
}

pub(crate) fn is_plugins_dir_chars(dir: &Vec<char>) -> (r: bool)
    ensures
        r == is_plugins_dir(dir@),
{
    let last = last_component_chars(dir);
    let plugins = to_chars("plugins");
    chars_eq_ignore_case(&last, &plugins)
}

pub(crate) fn hint_of_chars(file: &Vec<char>) -> (r: Vec<char>)
    ensures
        r@ == hint_of(file@),
{
    let mut cur = copy_chars(file);
    let mut at_file = true;
    loop
        invariant
            at_file == (cur@ == file@),
            hint_walk(file@, cur@) == hint_of(file@),
            cur@.len() <= file@.len(),
        decreases cur@.len(),
    {
        match rfind_char(&cur, '/') {
            Some(i) => {
                let parent = slice(&cur, 0, i);
                if is_plugins_dir_chars(&parent) {
                    let mut out = if at_file {
                        parent
                    } else {
                        cur
                    };
                    push_str(&mut out, "/");
                    return out;
                }
                cur = parent;
                at_file = false;
            },
            None => {
                return to_chars("/");
            },
        }
    }
}

pub(crate) fn is_plugin_binary_chars(name: &Vec<char>) -> (r: bool)
    ensures
        r == is_plugin_binary(name@),
{
    let ext = to_chars(".dll");
    ends_with(name, &ext)
}

pub(crate) fn mod_folder_chars(profile: &Vec<char>, mod_name: &Vec<char>) -> (r: Vec<char>)
    ensures
        r@ == mod_folder_of(profile@, mod_name@),
{
    let mut out = copy_chars(profile);
    push_str(&mut out, "/BepInEx/plugins/");
    push_all(&mut out, mod_name);
    out
}

pub(crate) fn in_hint_chars(path: &Vec<char>, hint: &Vec<char>) -> (r: bool)
    ensures
        r == in_hint(path@, hint@),
{
    let wildcard = to_chars("*");
    !chars_eq(hint, &wildcard) && starts_with(path, hint)
}

pub(crate) fn parent_is_plugins_chars(path: &Vec<char>) -> (r: bool)
    ensures
        r == parent_is_plugins(path@),
{
    match rfind_char(path, '/') {
        Some(i) => {
            let dir = slice(path, 0, i);
            let last = last_component_chars(&dir);
            let plugins = to_chars("plugins");
            chars_eq(&last, &plugins)
        },
        None => false,
    }
}

/// `base`, then `sep`, then `rest`.
pub(crate) fn join3(base: &Vec<char>, sep: &str, rest: &Vec<char>) -> (r: Vec<char>)
    ensures
        r@ == base@ + sep@ + rest@,
{
    let mut out = copy_chars(base);
    push_str(&mut out, sep);
    push_all(&mut out, rest);
    out
}

pub(crate) fn plugins_target_chars(
    path: &Vec<char>,
    rel: &Vec<char>,
    hint: &Vec<char>,
    profile: &Vec<char>,
    mod_name: &Vec<char>,
) -> (r: Vec<char>)
    ensures
        r@ == plugins_target(path@, rel@, hint@, profile@, mod_name@),
{
    if in_hint_chars(path, hint) {
        let folder = mod_folder_chars(profile, mod_name);
        let tail = after_chars(path, hint);
        join3(&folder, "/", &tail)
    } else if parent_is_plugins_chars(path) {
        let folder = mod_folder_chars(profile, mod_name);
        join3(&folder, "/", rel)
    } else if in_hint_chars(rel, hint) {
        let tail = after_chars(rel, hint);
        join3(profile, "/BepInEx/plugins/", &tail)
    } else {
        join3(profile, "/BepInEx/plugins/", rel)
    }
}

/// `s` without the prefix `p`, where it begins with it.
pub(crate) fn strip_prefix_chars(s: &Vec<char>, p: &str) -> (r: Option<Vec<char>>)
    ensures
        match r {
            Some(t) => p@.is_prefix_of(s@) && t@ == after(s@, p@),
            None => !p@.is_prefix_of(s@),
        },
{
    let pc = to_chars(p);
    if starts_with(s, &pc) {
        Some(after_chars(s, &pc))
    } else {
        None
    }
}

pub(crate) fn route_chars(
    path: &Vec<char>,
    hint: &Vec<char>,
    profile: &Vec<char>,
    mod_name: &Vec<char>,
) -> (r: Vec<char>)
    ensures
        r@ == routed(path@, hint@, profile@, mod_name@),
{
    if let Some(sub) = strip_prefix_chars(path, "BepInEx/") {
        if let Some(rest) = strip_prefix_chars(&sub, "config/") {
            join3(profile, "/BepInEx/config/", &rest)
        } else if let Some(rest) = strip_prefix_chars(&sub, "plugins/") {
            plugins_target_chars(path, &rest, hint, profile, mod_name)
        } else if let Some(rest) = strip_prefix_chars(&sub, "patchers/") {
            let folder = mod_folder_chars(profile, mod_name);
            join3(&folder, "/", &rest)
        } else {
            join3(profile, "/BepInEx/plugins/", &sub)
        }
    } else if let Some(rest) = strip_prefix_chars(path, "config/") {
        join3(profile, "/BepInEx/config/", &rest)
    } else if let Some(rest) = strip_prefix_chars(path, "plugins/") {
        plugins_target_chars(path, &rest, hint, profile, mod_name)
    } else if let Some(rest) = strip_prefix_chars(path, "patchers/") {
        let folder = mod_folder_chars(profile, mod_name);
        join3(&folder, "/", &rest)
    } else if find_char(path, '/').is_some() {
        join3(profile, "/BepInEx/plugins/", path)
    } else {
        let folder = mod_folder_chars(profile, mod_name);
        join3(&folder, "/", path)
    }
}

pub(crate) fn is_external_chars(
    target: &Vec<char>,
    profile: &Vec<char>,
    mod_name: &Vec<char>,
) -> (r: bool)
    ensures
        r == is_external(target@, profile@, mod_name@),
{
    let mut folder = mod_folder_chars(profile, mod_name);
    push_str(&mut folder, "/");
    !starts_with(target, &folder)
}

pub(crate) fn is_safe_name_chars(name: &Vec<char>) -> (r: bool)
    ensures
        r == is_safe_name(name@),
{
    if name.len() == 0 || name[0] == '/' {
        return false;
    }
    let mut i: usize = 0;
    while i < name.len()
        invariant
            i <= name.len(),
            forall|j: int| 0 <= j < i ==> name@[j] != '\0' && name@[j] != '\\',
            forall|j: int| j < i ==> !parent_component_at(name@, j),
        decreases name.len() - i,
    {
        let c = name[i];
        if c == '\0' || c == '\\' {
            assert(name@.contains(name@[i as int]));
            return false;
        }
        if c == '.' && i + 1 < name.len() && name[i + 1] == '.' && (i == 0 || name[i - 1] == '/')
            && (i + 2 == name.len() || name[i + 2] == '/') {
            assert(parent_component_at(name@, i as int));
            return false;
        }
        i += 1;
    }
    true
}

pub(crate) fn is_dir_name_chars(name: &Vec<char>) -> (r: bool)
    ensures
        r == is_dir_name(name@),
{
    name.len() > 0 && name[name.len() - 1] == '/'
}

/// Puts the loader prefix of an archive path in canonical case.
pub fn fix_path(path: &str) -> (r: String)
    ensures
        r@ == normalized(path@),
{
    let chars = to_chars(path);
    let out = normalize_chars(&chars);
    from_chars(&out)
}

pub(crate) fn root_hint_chars(names: &Vec<String>) -> (r: Vec<char>)
    ensures
        r@ == root_hint(names.deep_view()),
{
    let mut hint = to_chars("*");
    let mut i: usize = 0;
    while i < names.len()
        invariant
            i <= names.len(),
            hint@ == root_hint(names.deep_view().take(i as int)),
        decreases names.len() - i,
    {
        let name = to_chars(names[i].as_str());
        proof {
            let prev = names.deep_view().take(i as int);
            let next = names.deep_view().take(i + 1);
            assert(next.drop_last() =~= prev);
            assert(next.last() == name@);
        }
        if is_plugin_binary_chars(&name) {
            let n = normalize_chars(&name);
            hint = hint_of_chars(&n);
        }
        i += 1;
    }
    proof {
        assert(names.deep_view().take(names.len() as int) =~= names.deep_view());
    }
    hint
}

/// The mod root hint of an archive with the given entry names: the prefix,
/// ending in `/`, that the archive's last plugin binary points to, or `*`
/// where the archive holds no plugin binary.
pub fn mod_root_hint(names: &Vec<String>) -> (r: String)
    ensures
        r@ == root_hint(names.deep_view()),
{
    let hint = root_hint_chars(names);
    from_chars(&hint)
}

/// The private folder of the mod `mod_name` in the profile at `profile_dir`.
pub fn mod_folder(profile_dir: &str, mod_name: &str) -> (r: String)
    ensures
        r@ == mod_folder_of(profile_dir@, mod_name@),
{
    let p = to_chars(profile_dir);
    let m = to_chars(mod_name);
    let out = mod_folder_chars(&p, &m);
    from_chars(&out)
}

/// The path under the profile at which the archive entry `entry` is written.
pub fn remap(entry: &str, hint: &str, profile_dir: &str, mod_name: &str) -> (r: String)
    ensures
        r@ == target_path(entry@, hint@, profile_dir@, mod_name@),
{
    let e = to_chars(entry);
    let h = to_chars(hint);
    let p = to_chars(profile_dir);
    let m = to_chars(mod_name);
    let n = normalize_chars(&e);
    let out = route_chars(&n, &h, &p, &m);
    from_chars(&out)
}

/// Whether `target` lies outside the private folder of the mod.
pub fn is_external_file(target: &str, profile_dir: &str, mod_name: &str) -> (r: bool)
    ensures
        r == is_external(target@, profile_dir@, mod_name@),
{
    let t = to_chars(target);
    let p = to_chars(profile_dir);
    let m = to_chars(mod_name);
    is_external_chars(&t, &p, &m)
}

/// Whether an archive entry of this name may be written at all.
pub fn is_safe_entry(name: &str) -> (r: bool)
    ensures
        r == is_safe_name(name@),
{
    let n = to_chars(name);
    is_safe_name_chars(&n)
}

} // verus!
