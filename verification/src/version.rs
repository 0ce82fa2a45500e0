//! The version that the program tells of itself.

use vstd::prelude::*;

use crate::screens::{holds_name, named};

verus! {

/// The version: as released, if that is what was built, else with the commit
/// that it was built from and whether that was changed.
pub open spec fn display_text(
    version: Seq<char>,
    tags: Seq<String>,
    dirty: bool,
    commit: Option<Seq<char>>,
) -> Seq<char> {
    if (named(tags, "v"@ + version) || named(tags, version)) && !dirty {
        version
    } else {
        version + "+"@ + (match commit {
            Some(commit) => commit,
            None => "unknown"@,
        }) + (if dirty {
            ".dirty"@
        } else {
            ""@
        })
    }
}

/// The version to tell. `tags` are those of the commit that is built, `dirty`
/// whether anything was changed since.
pub fn display_version(
    version: &String,
    tags: &[String],
    dirty: bool,
    commit: &Option<String>,
) -> (text: String)
    ensures
        text@ == display_text(
            version@,
            tags@,
            dirty,
            match *commit {
                Some(commit) => Some(commit@),
                None => None,
            },
        ),
{
    let mut release = "v".to_owned();
    release.append(version.as_str());
    let tagged = holds_name(tags, &release) || holds_name(tags, version);
    if tagged && !dirty {
        return version.clone();
    }
    let mut text = version.clone();
    text.append("+");
    match commit {
        Some(commit) => text.append(commit.as_str()),
        None => text.append("unknown"),
    }
    text.append(if dirty {
        ".dirty"
    } else {
        ""
    });
    text
}

/// A build of a tagged commit with nothing changed tells the version alone; any other tells
/// the commit behind it, and at the end whether anything was changed.
pub proof fn which_version_is_told(
    version: Seq<char>,
    tags: Seq<String>,
    commit: Seq<char>,
    i: int,
)
    ensures
        0 <= i < tags.len() && (tags[i]@ == version || tags[i]@ == "v"@ + version) ==> display_text(
            version,
            tags,
            false,
            Some(commit),
        ) == version,
        (forall|k: int|
            0 <= k < tags.len() ==> (#[trigger] tags[k])@ != version && tags[k]@ != "v"@ + version)
            ==> display_text(version, tags, false, Some(commit)) == version + "+"@ + commit,
        (forall|k: int|
            0 <= k < tags.len() ==> (#[trigger] tags[k])@ != version && tags[k]@ != "v"@ + version)
            ==> display_text(version, tags, false, None) == version + "+"@ + "unknown"@,
        display_text(version, tags, true, Some(commit)) == version + "+"@ + commit + ".dirty"@,
        display_text(version, tags, true, None) == version + "+"@ + "unknown"@ + ".dirty"@,
{
    reveal_strlit("");
    assert((version + "+"@ + commit + ""@) =~= version + "+"@ + commit);
    assert((version + "+"@ + "unknown"@ + ""@) =~= version + "+"@ + "unknown"@);
}

} // verus!
