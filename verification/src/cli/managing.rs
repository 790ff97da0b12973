//! Managing plugins and trust from the command line: what is decided, and what is printed.

use crate::cli::{
    align_left, left_aligned, means_yes, permission_words, plugin_row, removal, show_covered,
    Removal,
};
use crate::host::calls::PluginPermission;
use crate::text::{texts, trim_of};
use crate::words::{concat, joined_with};
use vstd::prelude::*;

verus! {

// ---- plugins ----------------------------------------------------------------

/// A plugin that would be loaded.
#[derive(Debug)]
pub struct Listed {
    pub name: String,
    pub version: String,
    /// Where it comes from, in a word.
    pub origin: String,
    pub permissions: Vec<PluginPermission>,
    /// Where it is, unless it is part of the program.
    pub dir: Option<String>,
    /// What it was cloned from, where it was.
    pub remote: Option<String>,
}

/// A line under a plugin's own, where there is something to say on it.
pub open spec fn under_it(s: Option<String>) -> Seq<Seq<char>> {
    match s {
        Some(t) => seq![left_aligned(""@, 20) + " "@ + t@],
        None => seq![],
    }
}

/// What is printed of a plugin: what it is called and may do, where it is, and what it came from.
/// The last two are which copy is loaded and whether it can be updated.
pub open spec fn listed_lines(p: Listed) -> Seq<Seq<char>> {
    seq![
        left_aligned(p.name@, 20) + " "@ + left_aligned(p.version@, 10) + " "@ + p.origin@ + (
        if p.permissions@.len() == 0 {
            ""@
        } else {
            "  ["@ + joined_with(permission_words(p.permissions@), " "@) + "]"@
        }),
    ] + under_it(p.dir) + under_it(p.remote)
}

/// What is printed of some plugins, one after another.
pub open spec fn all_listed(v: Seq<Listed>) -> Seq<Seq<char>>
    decreases v.len(),
{
    if v.len() == 0 {
        seq![]
    } else {
        all_listed(v.drop_last()) + listed_lines(v.last())
    }
}

fn push_under(r: &mut Vec<String>, s: &Option<String>)
    ensures
        texts(final(r)@) == texts(old(r)@) + under_it(*s),
{
    let ghost was = texts(r@);
    match s {
        Some(t) => {
            let mut line = align_left("", 20);
            line.push_str(" ");
            line.push_str(t.as_str());
            let ghost said = line@;
            r.push(line);
            assert(texts(r@) =~= was + seq![said]);
        },
        None => {
            assert(texts(r@) =~= was + Seq::<Seq<char>>::empty());
        },
    }
}

/// Every plugin this machine would load, and where each came from.
pub fn run_plugin_list(all: &Vec<Listed>) -> (r: Vec<String>)
    ensures
        texts(r@) == (if all@.len() == 0 {
            seq!["no plugins."@]
        } else {
            all_listed(all@)
        }),
{
    let mut r: Vec<String> = Vec::new();
    if all.len() == 0 {
        r.push("no plugins.".to_owned());
        assert(texts(r@) =~= seq!["no plugins."@]);
        return r;
    }
    let mut i: usize = 0;
    assert(all@.take(0) =~= seq![]);
    assert(texts(r@) =~= all_listed(all@.take(0)));
    while i < all.len()
        invariant
            i <= all@.len(),
            texts(r@) == all_listed(all@.take(i as int)),
        decreases all@.len() - i,
    {
        let p = &all[i];
        let ghost was = texts(r@);
        let row = plugin_row(
            p.name.as_str(),
            p.version.as_str(),
            p.origin.as_str(),
            &p.permissions,
        );
        let ghost said = row@;
        r.push(row);
        assert(texts(r@) =~= was + seq![said]);
        push_under(&mut r, &p.dir);
        push_under(&mut r, &p.remote);
        proof {
            assert(all@.take(i + 1).drop_last() =~= all@.take(i as int));
            assert(all@.take(i + 1).last() == all@[i as int]);
            assert(texts(r@) =~= was + listed_lines(all@[i as int]));
        }
        i = i + 1;
    }
    assert(all@.take(i as int) =~= all@);
    r
}

/// What is printed once plugins have been updated: each that moved, and from where to where.
pub fn run_plugin_update(moved: &Vec<(String, String)>) -> (r: Vec<String>)
    ensures
        texts(r@) == (if moved@.len() == 0 {
            seq!["already up to date."@]
        } else {
            moved@.map_values(|m: (String, String)| m.0@ + "  "@ + m.1@).push(
                "\nThe running workspace has the old copy. `neosh stop` to pick these up."@,
            )
        }),
{
    let mut r: Vec<String> = Vec::new();
    if moved.len() == 0 {
        r.push("already up to date.".to_owned());
        assert(texts(r@) =~= seq!["already up to date."@]);
        return r;
    }
    let ghost want = moved@.map_values(|m: (String, String)| m.0@ + "  "@ + m.1@);
    let mut i: usize = 0;
    assert(texts(r@) =~= want.take(0));
    while i < moved.len()
        invariant
            i <= moved@.len(),
            want == moved@.map_values(|m: (String, String)| m.0@ + "  "@ + m.1@),
            texts(r@) == want.take(i as int),
        decreases moved@.len() - i,
    {
        let mut line = concat(moved[i].0.as_str(), "  ");
        line.push_str(moved[i].1.as_str());
        let ghost was = texts(r@);
        r.push(line);
        assert(texts(r@) =~= was.push(want[i as int]));
        i = i + 1;
        assert(want.take(i as int) =~= was.push(want[i - 1]));
    }
    assert(want.take(i as int) =~= want);
    let last = "\nThe running workspace has the old copy. `neosh stop` to pick these up.".to_owned();
    let ghost said = last@;
    r.push(last);
    assert(texts(r@) =~= want.push(said));
    r
}

/// What happens when a plugin is to be removed.
#[derive(Debug)]
pub enum Removing {
    /// Delete it, and then say this.
    Delete(String),
    /// Ask this, and come back with the answer.
    Ask(String),
    /// Do nothing, and fail with this.
    Refuse(String),
    /// Do nothing, and say this.
    Leave(&'static str),
}

/// What is said where nobody is there to be asked.
pub open spec fn nobody_to_ask(name: Seq<char>, dir: Seq<char>) -> Seq<char> {
    "removing "@ + name + " deletes "@ + dir
        + " and cannot be undone.\nNobody is here to ask, so pass --yes if you meant it."@
}

/// What happens when a plugin is to be removed. It cannot be undone, so it asks, and says what is at
/// stake before it does. `answer` is what was answered, once somebody has been asked.
pub fn run_plugin_remove(
    name: &str,
    dir: &str,
    yes: bool,
    somebody: bool,
    answer: Option<&str>,
) -> (r: Removing)
    ensures
        if yes {
            r is Delete && r->Delete_0@ == "removed "@ + name@ + " ("@ + dir@ + ")"@
        } else if !somebody {
            r is Refuse && r->Refuse_0@ == nobody_to_ask(name@, dir@)
        } else if answer is None {
            r is Ask && r->Ask_0@ == "Delete "@ + dir@ + " and everything in it? [y/N] "@
        } else if trim_of(answer->0@) == "y"@ || trim_of(answer->0@) == "Y"@ || trim_of(answer->0@)
            == "yes"@ {
            r is Delete && r->Delete_0@ == "removed "@ + name@ + " ("@ + dir@ + ")"@
        } else {
            r is Leave && r->Leave_0@ == "left alone."@
        },
{
    match removal(yes, somebody) {
        Removal::Go => {},
        Removal::Refuse => {
            let mut said = concat("removing ", name);
            said.push_str(" deletes ");
            said.push_str(dir);
            said.push_str(
                " and cannot be undone.\nNobody is here to ask, so pass --yes if you meant it.",
            );
            return Removing::Refuse(said);
        },
        Removal::Ask => match answer {
            None => {
                let mut said = concat("Delete ", dir);
                said.push_str(" and everything in it? [y/N] ");
                return Removing::Ask(said);
            },
            Some(a) => {
                if !means_yes(a) {
                    return Removing::Leave("left alone.");
                }
            },
        },
    }
    let mut said = concat("removed ", name);
    said.push_str(" (");
    said.push_str(dir);
    said.push_str(")");
    Removing::Delete(said)
}

// ---- trust ------------------------------------------------------------------

/// Every project that is trusted.
pub fn run_trust_list(all: &Vec<String>) -> (r: Vec<String>)
    ensures
        texts(r@) == (if all@.len() == 0 {
            seq!["no trusted projects"@]
        } else {
            texts(all@)
        }),
{
    let mut r: Vec<String> = Vec::new();
    if all.len() == 0 {
        r.push("no trusted projects".to_owned());
        assert(texts(r@) =~= seq!["no trusted projects"@]);
        return r;
    }
    let mut i: usize = 0;
    assert(texts(r@) =~= texts(all@).take(0));
    while i < all.len()
        invariant
            i <= all@.len(),
            texts(r@) == texts(all@).take(i as int),
        decreases all@.len() - i,
    {
        let ghost was = texts(r@);
        r.push(all[i].clone());
        assert(texts(r@) =~= was.push(all@[i as int]@));
        i = i + 1;
        assert(texts(all@).take(i as int) =~= was.push(all@[i - 1]@));
    }
    assert(texts(all@).take(i as int) =~= texts(all@));
    r
}

/// What is printed once trust has been withdrawn, or there was none to withdraw.
pub fn run_trust_revoke(cwd: &str, was_trusted: bool) -> (r: String)
    ensures
        r@ == (if was_trusted {
            "revoked trust for "@ + cwd@
        } else {
            cwd@ + " was not trusted"@
        }),
{
    if was_trusted {
        concat("revoked trust for ", cwd)
    } else {
        concat(cwd, " was not trusted")
    }
}

/// A file that trust covers: where it is, and what it says where that is text.
pub type Covered = (String, Option<String>);

/// What is shown of a file that trust covers.
pub open spec fn covered_lines(f: Covered) -> Seq<Seq<char>> {
    match f.1 {
        Some(t) => seq!["--- "@ + f.0@ + " ---"@, crate::text::trim_end_of(t@)],
        None => seq!["--- "@ + f.0@ + " --- (not shown)"@],
    }
}

/// What is shown of some files that trust covers, one after another.
pub open spec fn all_covered(v: Seq<Covered>) -> Seq<Seq<char>>
    decreases v.len(),
{
    if v.len() == 0 {
        seq![]
    } else {
        all_covered(v.drop_last()) + covered_lines(v.last())
    }
}

/// What is printed when a project is trusted: every file that trust covers, so that nobody approves
/// what they have not seen, and what would take the trust away again.
pub fn run_trust(dir: &str, files: &Vec<Covered>) -> (r: Vec<String>)
    ensures
        texts(r@) == all_covered(files@).push("\ntrusted "@ + dir@).push(
            "Editing these files revokes trust; run `neosh trust` again after reviewing."@,
        ),
{
    let mut r: Vec<String> = Vec::new();
    let mut i: usize = 0;
    assert(files@.take(0) =~= seq![]);
    assert(texts(r@) =~= all_covered(files@.take(0)));
    while i < files.len()
        invariant
            i <= files@.len(),
            texts(r@) == all_covered(files@.take(i as int)),
        decreases files@.len() - i,
    {
        let ghost was = texts(r@);
        let text = match &files[i].1 {
            Some(t) => Some(t.as_str()),
            None => None,
        };
        let mut more = show_covered(files[i].0.as_str(), text);
        let ghost said = texts(more@);
        r.append(&mut more);
        proof {
            assert(texts(r@) =~= was + said);
            assert(files@.take(i + 1).drop_last() =~= files@.take(i as int));
            assert(files@.take(i + 1).last() == files@[i as int]);
            assert(said == covered_lines(files@[i as int]));
        }
        i = i + 1;
    }
    assert(files@.take(i as int) =~= files@);
    let ghost was = texts(r@);
    let first = concat("\ntrusted ", dir);
    let last =
        "Editing these files revokes trust; run `neosh trust` again after reviewing.".to_owned();
    let ghost a = first@;
    let ghost b = last@;
    r.push(first);
    r.push(last);
    assert(texts(r@) =~= was.push(a).push(b));
    r
}

} // verus!
