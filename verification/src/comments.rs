//! Comments that carry a setting, of the form `// rustfmt-key: value`.

use vstd::prelude::*;

use crate::expressions::{captures, captures_of};

verus! {

/// The pattern of a comment that carries a setting. Its first group is the
/// key, its second the value.
pub open spec fn significant_comment_pattern() -> Seq<char> {
    r"^\s*//\s*rustfmt-([^:]+):\s*(\S+)"@
}

/// The key and the value of the setting that `line` carries.
pub open spec fn significant_comment_of(line: Seq<char>) -> Option<(Seq<char>, Seq<char>)> {
    match captures_of(significant_comment_pattern(), line) {
        Some(groups) => if groups.len() == 3 {
            match (groups[1], groups[2]) {
                (Some(key), Some(value)) => Some((key, value)),
                _ => None,
            }
        } else {
            None
        },
        None => None,
    }
}

/// The settings that `lines` carry, in the order of the lines.
pub open spec fn significant_comments_of(lines: Seq<String>) -> Seq<(Seq<char>, Seq<char>)> {
    lines.filter_map(|line: String| significant_comment_of(line@))
}

/// What a list of settings holds.
pub open spec fn settings_of(settings: Seq<(String, String)>) -> Seq<(Seq<char>, Seq<char>)> {
    settings.map_values(|entry: (String, String)| (entry.0@, entry.1@))
}

/// Picks the key and the value out of the groups of a match.
pub fn key_and_value(groups: Vec<Option<String>>) -> (entry: Option<(String, String)>)
    ensures
        match entry {
            Some((key, value)) => groups@.len() == 3 && groups@[1] == Some(key) && groups@[2]
                == Some(value),
            None => groups@.len() != 3 || groups@[1] is None || groups@[2] is None,
        },
{
    let mut groups = groups;
    if groups.len() != 3 {
        return None;
    }
    let value = groups.pop()??;
    let key = groups.pop()??;
    Some((key, value))
}

/// Reads the setting that a line carries, as key and value.
pub fn significant_comment(line: &str) -> (entry: Option<(String, String)>)
    ensures
        match entry {
            Some((key, value)) => significant_comment_of(line@) == Some((key@, value@)),
            None => significant_comment_of(line@) is None,
        },
{
    let groups = captures(r"^\s*//\s*rustfmt-([^:]+):\s*(\S+)", line)?;
    key_and_value(groups)
}

/// Reads the settings that the lines of a file carry, as keys and values in
/// the order of the lines. A line that carries none is passed over.
pub fn significant_comments(lines: &Vec<String>) -> (settings: Vec<(String, String)>)
    ensures
        settings_of(settings@) == significant_comments_of(lines@),
{
    let mut settings: Vec<(String, String)> = Vec::new();
    let ghost read = |line: String| significant_comment_of(line@);
    proof {
        assert(settings_of(settings@) =~= lines@.take(0).filter_map(read));
    }
    for i in 0..lines.len()
        invariant
            read == |line: String| significant_comment_of(line@),
            settings_of(settings@) == lines@.take(i as int).filter_map(read),
    {
        proof {
            assert(lines@.take(i + 1).drop_last() =~= lines@.take(i as int));
        }
        if let Some(entry) = significant_comment(lines[i].as_str()) {
            proof {
                assert(settings_of(settings@.push(entry)) =~= settings_of(settings@) + seq![
                    (entry.0@, entry.1@),
                ]);
            }
            settings.push(entry);
        }
    }
    proof {
        assert(lines@.take(lines@.len() as int) =~= lines@);
    }
    settings
}

} // verus!
