//! `sandseal update` hands the upgrade to the published installer, fed to `bash` on its
//! standard input.
use vstd::prelude::*;

verus! {

/// Where the installer is published.
pub const INSTALLER_URL: &'static str = "https://sandseal.io/install.sh";

/// The arguments `bash` runs the installer with: read the script from standard input,
/// and pass on the version asked for, when one is.
pub fn installer_args(version: Option<&str>) -> (r: Vec<String>)
    ensures
        crate::text::views(r@) == seq!["-s"@, "--"@] + match version {
            Some(v) => seq!["--version"@, v@],
            None => Seq::<Seq<char>>::empty(),
        },
{
    let mut v: Vec<String> = Vec::new();
    v.push("-s".to_owned());
    v.push("--".to_owned());
    match version {
        Some(ver) => {
            v.push("--version".to_owned());
            v.push(ver.to_owned());
        },
        None => {},
    }
    proof {
        assert(crate::text::views(v@) =~= seq!["-s"@, "--"@] + match version {
            Some(x) => seq!["--version"@, x@],
            None => Seq::<Seq<char>>::empty(),
        });
    }
    v
}

} // verus!
