//! Profiles: their records, their names and their icons.

use crate::catalog::{
    clone_strings, find_mod, find_version, mod_names, position, version_numbers, Mod, ModInfo,
    ModInfoView, ModView,
};
use crate::errors::ErrorKind;
use crate::text::{
    from_chars, last_index, rfind_char, slice, split_once, split_once_chars, starts_with, to_chars,
};
use vstd::prelude::*;
use vstd::string::StrSliceExecFns;

verus! {

/// A profile as it is listed: with the number of mods installed in it.
#[derive(Debug)]
pub struct ProfileInfo {
    pub name: String,
    pub icon: Option<String>,
    pub mods_amount: usize,
    pub folder: String,
}

/// A profile as it is stored in its folder.
#[derive(Debug)]
pub struct Profile {
    pub name: String,
    pub icon: Option<String>,
    pub folder: String,
}

/// What an installed mod's own description file says of it.
#[derive(Debug)]
pub struct Manifest {
    pub version_number: String,
}

/// The character may stand in a profile's name: an ASCII letter or digit,
/// `_` or `-`.
pub open spec fn is_name_char(c: char) -> bool {
    ('a' <= c && c <= 'z') || ('A' <= c && c <= 'Z') || ('0' <= c && c <= '9') || c == '_' || c
        == '-'
}

/// The name is one that a profile may have: not empty, and made of name
/// characters only.
pub open spec fn is_profile_name(name: Seq<char>) -> bool {
    name.len() > 0 && forall|i: int| 0 <= i < name.len() ==> is_name_char(#[trigger] name[i])
}

/// Whether a profile may have this name.
pub fn is_valid_profile_name(name: &str) -> (r: bool)
    ensures
        r == is_profile_name(name@),
{
    let chars = to_chars(name);
    if chars.len() == 0 {
        return false;
    }
    let mut i: usize = 0;
    while i < chars.len()
        invariant
            i <= chars.len(),
            chars@ == name@,
            forall|j: int| 0 <= j < i ==> is_name_char(#[trigger] chars@[j]),
        decreases chars.len() - i,
    {
        let c = chars[i];
        let ok = (c >= 'a' && c <= 'z') || (c >= 'A' && c <= 'Z') || (c >= '0' && c <= '9') || c
            == '_' || c == '-';
        if !ok {
            assert(!is_name_char(chars@[i as int]));
            return false;
        }
        i += 1;
    }
    true
}

/// Checks the name of a profile that is to be created. `taken` says whether
/// a profile of that name exists already.
pub fn check_new_profile(name: &str, taken: bool) -> (r: Result<(), ErrorKind>)
    ensures
        r == (if !is_profile_name(name@) {
            Err::<(), ErrorKind>(ErrorKind::InvalidInput)
        } else if taken {
            Err::<(), ErrorKind>(ErrorKind::Conflict)
        } else {
            Ok::<(), ErrorKind>(())
        }),
{
    if !is_valid_profile_name(name) {
        Err(ErrorKind::InvalidInput)
    } else if taken {
        Err(ErrorKind::Conflict)
    } else {
        Ok(())
    }
}

/// The icon is given inline, as a `data:image/...` URL.
pub open spec fn is_inline_icon(icon: Seq<char>) -> bool {
    "data:image/"@.is_prefix_of(icon)
}

/// The file extension for an icon. For an inline icon it is the image type
/// named between `data:image/` and the first `;`, and there is none where the
/// `;` is missing; for any other icon it is what follows the last `.`, or
/// the whole string where it holds no `.`.
pub open spec fn icon_extension_of(icon: Seq<char>) -> Option<Seq<char>> {
    if is_inline_icon(icon) {
        match split_once(icon, ';') {
            Some((head, _)) => Some(head.skip("data:image/"@.len() as int)),
            None => None,
        }
    } else {
        match last_index(icon, '.') {
            Some(i) => Some(icon.skip(i + 1)),
            None => Some(icon),
        }
    }
}

/// The file extension for a profile's icon. An inline icon without `;` is
/// refused.
pub fn icon_extension(icon: &str) -> (r: Result<String, ErrorKind>)
    ensures
        match r {
            Ok(ext) => icon_extension_of(icon@) == Some(ext@),
            Err(e) => e == ErrorKind::InvalidInput && icon_extension_of(icon@) is None,
        },
{
    let chars = to_chars(icon);
    let prefix = to_chars("data:image/");
    if starts_with(&chars, &prefix) {
        match split_once_chars(&chars, ';') {
            Some((head, _)) => {
                proof {
                    reveal_strlit("data:image/");
                    // the prefix holds no `;`, so the first `;` lies behind it
                    if head@.len() < prefix@.len() {
                        let i = head@.len() as int;
                        assert(chars@.subrange(0, prefix@.len() as int)[i] == chars@[i]);
                    }
                }
                let n = head.len();
                let ext = slice(&head, prefix.len(), n);
                Ok(from_chars(&ext))
            },
            None => Err(ErrorKind::InvalidInput),
        }
    } else {
        match rfind_char(&chars, '.') {
            Some(i) => {
                let n = chars.len();
                let ext = slice(&chars, i + 1, n);
                Ok(from_chars(&ext))
            },
            None => Ok(from_chars(&chars)),
        }
    }
}

/// Whether the icon of a profile is given inline.
pub fn icon_is_inline(icon: &str) -> (r: bool)
    ensures
        r == is_inline_icon(icon@),
{
    let chars = to_chars(icon);
    let prefix = to_chars("data:image/");
    starts_with(&chars, &prefix)
}

/// The profile as it is listed, given the number of mods installed in it.
pub fn profile_info(profile: Profile, mods_amount: usize, folder: String) -> (r: ProfileInfo)
    ensures
        r.name == profile.name,
        r.icon == profile.icon,
        r.mods_amount == mods_amount,
        r.folder == folder,
{
    ProfileInfo { name: profile.name, icon: profile.icon, mods_amount, folder }
}

/// The number of byte-order marks that `text` begins with.
pub open spec fn leading_marks(text: Seq<char>) -> int
    decreases text.len(),
{
    if text.len() > 0 && text[0] == '\u{feff}' {
        1 + leading_marks(text.skip(1))
    } else {
        0
    }
}

/// `text` without the byte-order marks that it begins with.
pub open spec fn without_marks(text: Seq<char>) -> Seq<char> {
    text.skip(leading_marks(text))
}

proof fn lemma_leading_marks(text: Seq<char>, k: int)
    requires
        0 <= k <= text.len(),
        forall|i: int| 0 <= i < k ==> text[i] == '\u{feff}',
        k == text.len() || text[k] != '\u{feff}',
    ensures
        leading_marks(text) == k,
    decreases k,
{
    if k > 0 {
        let rest = text.skip(1);
        assert forall|i: int| 0 <= i < k - 1 implies rest[i] == '\u{feff}' by {
            assert(rest[i] == text[i + 1]);
        }
        if k < text.len() {
            assert(rest[k - 1] == text[k]);
        }
        lemma_leading_marks(rest, k - 1);
    }
}

/// The text of a description file without the byte-order marks that it
/// begins with.
pub fn strip_bom<'a>(text: &'a str) -> (r: &'a str)
    ensures
        r@ == without_marks(text@),
{
    let chars = to_chars(text);
    let n = text.unicode_len();
    let mut k: usize = 0;
    while k < n && chars[k] == '\u{feff}'
        invariant
            k <= n,
            n == chars.len(),
            forall|i: int| 0 <= i < k ==> chars@[i] == '\u{feff}',
        decreases n - k,
    {
        k += 1;
    }
    proof {
        lemma_leading_marks(text@, k as int);
        assert(text@.subrange(k as int, n as int) =~= text@.skip(k as int));
    }
    text.substring_char(k, n)
}

/// The record of the mod installed in `folder`, whose own description file
/// names the version `version_number`, as the catalog describes it. The mod
/// counts as disabled where its folder holds the sidecar folder.
pub open spec fn installed_record(
    catalog: Seq<ModView>,
    full_name: Seq<char>,
    version_number: Seq<char>,
    folder: Seq<char>,
    icon: Option<Seq<char>>,
    has_sidecar: bool,
) -> Option<ModInfoView> {
    match position(mod_names(catalog), full_name) {
        Some(a) => match position(version_numbers(catalog[a].versions), version_number) {
            Some(b) => Some(
                ModInfoView {
                    name: catalog[a].name,
                    full_name: catalog[a].full_name,
                    description: catalog[a].versions[b].description,
                    author: catalog[a].owner,
                    version_number,
                    dependencies: catalog[a].versions[b].dependencies,
                    folder,
                    icon,
                    enabled: !has_sidecar,
                },
            ),
            None => None,
        },
        None => None,
    }
}

/// Describes the mod found installed in a profile: in `folder`, which is
/// named by the mod's full name, with a description file that names the
/// version `version_number`. The catalog gives the rest. A mod or a version
/// that the catalog does not hold is reported as not found.
pub fn installed_mod(
    mods: &Vec<Mod>,
    full_name: &str,
    version_number: &str,
    folder: &str,
    icon: Option<String>,
    has_sidecar: bool,
) -> (r: Result<ModInfo, ErrorKind>)
    ensures
        match r {
            Ok(info) => installed_record(
                mods.deep_view(),
                full_name@,
                version_number@,
                folder@,
                match icon {
                    Some(s) => Some(s@),
                    None => None,
                },
                has_sidecar,
            ) == Some(info.deep_view()),
            Err(e) => e == ErrorKind::NotFound && installed_record(
                mods.deep_view(),
                full_name@,
                version_number@,
                folder@,
                match icon {
                    Some(s) => Some(s@),
                    None => None,
                },
                has_sidecar,
            ) is None,
        },
{
    let a = match find_mod(mods, full_name) {
        Some(a) => a,
        None => {
            return Err(ErrorKind::NotFound);
        },
    };
    let m = &mods[a];
    let b = match find_version(&m.versions, version_number) {
        Some(b) => b,
        None => {
            return Err(ErrorKind::NotFound);
        },
    };
    let v = &m.versions[b];
    proof {
        assert(mods.deep_view()[a as int] == m.deep_view());
        assert(m.deep_view().versions[b as int] == v.deep_view());
    }
    Ok(
        ModInfo {
            name: m.name.clone(),
            full_name: m.full_name.clone(),
            description: v.description.clone(),
            author: m.owner.clone(),
            version_number: version_number.to_owned(),
            dependencies: clone_strings(&v.dependencies),
            folder: folder.to_owned(),
            icon,
            enabled: !has_sidecar,
        },
    )
}

} // verus!
