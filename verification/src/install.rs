//! The steps by which resolved versions are installed, one after the other.

use crate::catalog::{parse_reference_chars, parsed_reference, Version, VersionView};
use crate::text::{copy_chars, from_chars, push_all, push_str, to_chars};
use vstd::prelude::*;

verus! {

/// The installation of one version: its archive is fetched, unless the file
/// that caches it is there, and laid out in the profile.
#[derive(Debug)]
pub struct InstallStep {
    /// The name of the package, under which its private folder is made.
    pub mod_name: String,
    /// What is shown while the archive is fetched.
    pub download_label: String,
    /// What is shown while the archive is laid out.
    pub extract_label: String,
    /// Where the archive is fetched from.
    pub download_url: String,
    /// The file that caches the archive.
    pub archive: String,
    /// The place of the step among all steps.
    pub index: usize,
    /// The number of all steps.
    pub total: usize,
}

/// The model of an `InstallStep`.
pub struct StepView {
    pub mod_name: Seq<char>,
    pub download_label: Seq<char>,
    pub extract_label: Seq<char>,
    pub download_url: Seq<char>,
    pub archive: Seq<char>,
    pub index: nat,
    pub total: nat,
}

impl DeepView for InstallStep {
    type V = StepView;

    open spec fn deep_view(&self) -> StepView {
        StepView {
            mod_name: self.mod_name@,
            download_label: self.download_label@,
            extract_label: self.extract_label@,
            download_url: self.download_url@,
            archive: self.archive@,
            index: self.index as nat,
            total: self.total as nat,
        }
    }
}

/// The step for the version at place `index` of `total`. The package's name
/// is the version's full name without its last `-` and what follows it; the
/// archive is cached in `temp_dir` under the version's full name.
pub open spec fn step_for(v: VersionView, temp_dir: Seq<char>, index: nat, total: nat) -> StepView {
    StepView {
        mod_name: parsed_reference(v.full_name).0,
        download_label: "Downloading "@ + v.name + "..."@,
        extract_label: "Extracting "@ + v.name + "..."@,
        download_url: v.download_url,
        archive: temp_dir + v.full_name + ".zip"@,
        index,
        total,
    }
}

/// The steps for all versions, in order.
pub open spec fn steps_for(versions: Seq<VersionView>, temp_dir: Seq<char>) -> Seq<StepView> {
    Seq::new(
        versions.len(),
        |i: int| step_for(versions[i], temp_dir, i as nat, versions.len()),
    )
}

fn label(prefix: &str, name: &str) -> (r: String)
    ensures
        r@ == prefix@ + name@ + "..."@,
{
    let mut out = to_chars(prefix);
    push_str(&mut out, name);
    push_str(&mut out, "...");
    from_chars(&out)
}

/// The steps by which the versions are installed, in the order given:
/// dependencies come before the packages that need them where the resolver
/// put them so.
pub fn download_mod(versions: &Vec<Version>, temp_dir: &str) -> (steps: Vec<InstallStep>)
    ensures
        steps.deep_view() == steps_for(versions.deep_view(), temp_dir@),
{
    let dir = to_chars(temp_dir);
    let total = versions.len();
    let ghost wanted = steps_for(versions.deep_view(), temp_dir@);
    let mut steps: Vec<InstallStep> = Vec::new();
    let mut i: usize = 0;
    while i < total
        invariant
            i <= total,
            total == versions.len(),
            dir@ == temp_dir@,
            wanted == steps_for(versions.deep_view(), temp_dir@),
            steps.deep_view() == wanted.take(i as int),
        decreases total - i,
    {
        let v = &versions[i];
        let full_name = to_chars(v.full_name.as_str());
        let (mod_name, _) = parse_reference_chars(&full_name);
        let mut archive = copy_chars(&dir);
        push_all(&mut archive, &full_name);
        push_str(&mut archive, ".zip");
        let step = InstallStep {
            mod_name: from_chars(&mod_name),
            download_label: label("Downloading ", v.name.as_str()),
            extract_label: label("Extracting ", v.name.as_str()),
            download_url: v.download_url.clone(),
            archive: from_chars(&archive),
            index: i,
            total,
        };
        let ghost before = steps.deep_view();
        proof {
            assert(versions.deep_view()[i as int] == v.deep_view());
            assert(step.deep_view() == wanted[i as int]);
        }
        steps.push(step);
        proof {
            assert(steps.deep_view() =~= before.push(wanted[i as int]));
            assert(wanted.take(i + 1) =~= wanted.take(i as int).push(wanted[i as int]));
        }
        i += 1;
    }
    assert(wanted.take(total as int) =~= wanted);
    steps
}

} // verus!
