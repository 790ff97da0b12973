//! What things are called: a checkout, a picture, this machine, and the moment.

use crate::images::keeping::{extension_for, is_id, is_id_char, is_place, place_for};
use crate::images::{kind_of, kind_said};
use crate::paths::maybe;
use crate::text::{
    chars_of, lemma_position, position, position_of, same_text, split_on, string_of, texts,
};
use crate::words::{last_position, last_position_of, split};
use crate::paths::spelling::{is_same_path, same_path};
use vstd::prelude::*;
use vstd::slice::slice_subrange;

verus! {

// ---- the last name of a path ------------------------------------------------

/// The last of some names that is one: an empty name, and one dot, are not.
pub open spec fn last_real(v: Seq<Seq<char>>) -> Option<Seq<char>>
    decreases v.len(),
{
    if v.len() == 0 {
        None
    } else if v.last().len() == 0 || v.last() == "."@ {
        last_real(v.drop_last())
    } else {
        Some(v.last())
    }
}

/// The last name of a path. A path that goes up at the end has none.
pub open spec fn file_name_of(path: Seq<char>) -> Option<Seq<char>> {
    match last_real(split_on(path, '/')) {
        Some(n) => if n == ".."@ {
            None
        } else {
            Some(n)
        },
        None => None,
    }
}

/// The last name of a path.
pub fn file_name(path: &str) -> (r: Option<String>)
    ensures
        match r {
            Some(n) => file_name_of(path@) == Some(n@),
            None => file_name_of(path@) is None,
        },
{
    let cs = chars_of(path);
    let names = split(cs.as_slice(), '/');
    let ghost v = texts(names@);
    let mut i: usize = names.len();
    assert(v.take(i as int) =~= v);
    while i > 0
        invariant
            i <= names@.len(),
            v == texts(names@),
            v == split_on(path@, '/'),
            last_real(v) == last_real(v.take(i as int)),
        decreases i,
    {
        assert(v.take(i as int).drop_last() =~= v.take(i - 1));
        assert(v.take(i as int).last() == names@[i - 1]@);
        let n = &names[i - 1];
        if chars_of(n.as_str()).len() > 0 && !same_text(n.as_str(), ".") {
            if same_text(n.as_str(), "..") {
                return None;
            }
            return Some(n.clone());
        }
        i = i - 1;
    }
    assert(v.take(0) =~= seq![]);
    None
}

/// A name without its extension: what comes before its last dot, unless it begins with that.
pub open spec fn stem_of(name: Seq<char>) -> Seq<char> {
    let dot = last_position_of(name, '.');
    if dot > 0 {
        name.take(dot)
    } else {
        name
    }
}

/// A name without its extension.
pub fn stem(name: &str) -> (r: String)
    ensures
        r@ == stem_of(name@),
{
    let cs = chars_of(name);
    match last_position(cs.as_slice(), '.') {
        Some(dot) => if dot > 0 {
            let s = slice_subrange(cs.as_slice(), 0, dot);
            assert(s@ =~= cs@.take(dot as int));
            string_of(s)
        } else {
            name.to_owned()
        },
        None => name.to_owned(),
    }
}

// ---- a checkout -------------------------------------------------------------

/// The last name of a path, or all of it where it has none.
pub open spec fn leaf_name(path: Seq<char>) -> Seq<char> {
    match file_name_of(path) {
        Some(n) => n,
        None => path,
    }
}

fn leaf_called(path: &str) -> (r: String)
    ensures
        r@ == leaf_name(path@),
{
    match file_name(path) {
        Some(n) => n,
        None => path.to_owned(),
    }
}

/// What to call a checkout: the repository it belongs to, and for a worktree its branch. What is not
/// a repository keeps the name of its directory, which is all there is to go on.
pub open spec fn checkout_named(
    dir: Seq<char>,
    branch: Option<Seq<char>>,
    main: Option<Seq<char>>,
    same: bool,
) -> Seq<char> {
    match main {
        None => leaf_name(dir),
        Some(m) => if same {
            leaf_name(m)
        } else {
            leaf_name(m) + " \u{b7} "@ + (match branch {
                Some(b) => b,
                None => leaf_name(dir),
            })
        },
    }
}

/// What to call a checkout. `same` is whether it is the repository's original one.
pub fn project_name(dir: &str, branch: Option<&str>, main: Option<&str>, same: bool) -> (r: String)
    ensures
        r@ == checkout_named(dir@, maybe(branch), maybe(main), same),
{
    match main {
        None => leaf_called(dir),
        Some(m) => {
            let mut r = leaf_called(m);
            if same {
                return r;
            }
            r.push_str(" \u{b7} ");
            match branch {
                Some(b) => {
                    r.push_str(b);
                },
                None => {
                    r.push_str(leaf_called(dir).as_str());
                },
            }
            r
        },
    }
}

/// Whether two paths are the same directory: they are spellings of one path, or they lead to the same
/// place. Where each leads is given, where it leads anywhere.
pub fn same_dir(a: &str, b: &str, leads: Option<&str>, too: Option<&str>) -> (r: bool)
    ensures
        r == (is_same_path(a@, b@) || (leads is Some && too is Some && is_same_path(
            leads->0@,
            too->0@,
        ))),
{
    if same_path(a, b) {
        return true;
    }
    match (leads, too) {
        (Some(x), Some(y)) => same_path(x, y),
        _ => false,
    }
}

// ---- a picture --------------------------------------------------------------

/// The row an attached picture gets: what kind it is, and what it was called where somebody chose
/// that.
pub open spec fn picture_row(path: Seq<char>, media_type: Seq<char>) -> Seq<char> {
    let name = match file_name_of(path) {
        Some(n) => stem_of(n),
        None => seq![],
    };
    if name.len() > 0 && !is_id(name) {
        "["@ + kind_said(media_type) + " \u{b7} "@ + name + "]"@
    } else {
        "["@ + kind_said(media_type) + "]"@
    }
}

fn nobody_chose(name: &str) -> (r: bool)
    ensures
        r == is_id(name@),
{
    let cs = chars_of(name);
    if cs.len() != 36 {
        return false;
    }
    let mut i: usize = 0;
    while i < cs.len()
        invariant
            i <= cs@.len(),
            cs@ == name@,
            cs@.len() == 36,
            forall|j: int| 0 <= j < i ==> is_id_char(#[trigger] cs@[j]),
        decreases cs@.len() - i,
    {
        let c = cs[i];
        if !(('0' <= c && c <= '9') || ('a' <= c && c <= 'f') || ('A' <= c && c <= 'F') || c
            == '-') {
            assert(!is_id_char(cs@[i as int]));
            return false;
        }
        i = i + 1;
    }
    true
}

/// The one row an attached picture gets in a transcript. A terminal cannot show it, so what it shows
/// instead are the two things you would tell one from another by.
pub fn image_row(path: &str, media_type: &str) -> (r: String)
    ensures
        r@ == picture_row(path@, media_type@),
{
    let name = match file_name(path) {
        Some(n) => stem(n.as_str()),
        None => {
            let none = String::new();
            assert(none@ =~= seq![]);
            none
        },
    };
    let mut r = "[".to_owned();
    r.push_str(kind_of(media_type).as_str());
    if chars_of(name.as_str()).len() > 0 && !nobody_chose(name.as_str()) {
        r.push_str(" \u{b7} ");
        r.push_str(name.as_str());
    }
    r.push_str("]");
    r
}

proof fn lemma_last_piece(a: Seq<char>, b: Seq<char>)
    requires
        !b.contains('/'),
        a.len() > 0 ==> a.last() == '/',
    ensures
        split_on(a + b, '/').len() >= 1,
        split_on(a + b, '/').last() == b,
    decreases a.len(),
{
    let s = a + b;
    if a.len() == 0 {
        assert(s =~= b);
        assert forall|j: int| 0 <= j < b.len() implies #[trigger] b[j] != '/' by {
            assert(b.contains(b[j]));
        }
        lemma_position(b, '/', b.len() as int);
    } else {
        crate::text::lemma_position_found(s, '/');
        let i = position_of(s, '/');
        assert(s[a.len() - 1] == '/');
        assert(i <= a.len() - 1);
        assert(s.skip(i + 1) =~= a.skip(i + 1) + b);
        if a.skip(i + 1).len() > 0 {
            assert(a.skip(i + 1).last() == a.last());
        }
        lemma_last_piece(a.skip(i + 1), b);
        assert(split_on(s, '/') == seq![s.take(i)] + split_on(s.skip(i + 1), '/'));
    }
}

proof fn lemma_last_dot(a: Seq<char>, ext: Seq<char>)
    requires
        !ext.contains('.'),
    ensures
        last_position_of(a.push('.') + ext, '.') == a.len(),
    decreases ext.len(),
{
    let s = a.push('.') + ext;
    if ext.len() == 0 {
        assert(s.last() == '.');
    } else {
        assert(s.last() == ext.last());
        assert(ext.contains(ext.last()));
        assert(s.drop_last() =~= a.push('.') + ext.drop_last());
        assert(!ext.drop_last().contains('.')) by {
            if ext.drop_last().contains('.') {
                let k = choose|k: int| 0 <= k < ext.drop_last().len() && ext.drop_last()[k] == '.';
                assert(ext[k] == '.');
            }
        }
        lemma_last_dot(a, ext.drop_last());
    }
}

/// A picture that was kept under a name nobody chose shows no name: thirty-six characters of nothing
/// are not worth a row.
pub proof fn a_kept_picture_shows_no_name(store: Seq<char>, media_type: Seq<char>, path: Seq<char>)
    requires
        is_place(store, media_type, path),
        !extension_for(media_type).contains('.'),
        !extension_for(media_type).contains('/'),
    ensures
        picture_row(path, media_type) == "["@ + kind_said(media_type) + "]"@,
{
    let id = choose|id: Seq<char>|
        is_id(id) && path == #[trigger] place_for(store, media_type, id);
    let ext = extension_for(media_type);
    reveal_strlit(".");
    reveal_strlit("..");
    let name = id + "."@ + ext;
    assert(name =~= id.push('.') + ext);
    assert(!name.contains('/')) by {
        if name.contains('/') {
            let k = choose|k: int| 0 <= k < name.len() && name[k] == '/';
            if k < 36 {
                assert(name[k] == id[k]);
                assert(is_id_char(id[k]));
            } else if k > 36 {
                assert(name[k] == ext[k - 37]);
                assert(ext.contains(ext[k - 37]));
            }
        }
    }
    if store.len() == 0 || store.last() == '/' {
        assert(path == store + name);
        lemma_last_piece(store, name);
    } else {
        assert(path == store.push('/') + name);
        lemma_last_piece(store.push('/'), name);
    }
    assert(name.len() >= 37);
    assert(file_name_of(path) == Some(name));
    lemma_last_dot(id, ext);
    assert(name.take(36) =~= id);
}

// ---- this machine -----------------------------------------------------------

/// The first part of a name with dots in it.
pub open spec fn first_part(host: Seq<char>) -> Seq<char> {
    host.take(position_of(host, '.'))
}

/// What to call this machine: what the environment calls it, as far as the first dot, or something
/// that is a name rather than a failure.
pub fn machine_name(hostname: Option<&str>, computername: Option<&str>, otherwise: &str) -> (r:
    String)
    ensures
        ({
            let given = if hostname is Some {
                hostname
            } else {
                computername
            };
            r@ == (if given is Some && first_part(given->0@).len() > 0 {
                first_part(given->0@)
            } else {
                otherwise@
            })
        }),
{
    let given = match hostname {
        Some(h) => Some(h),
        None => computername,
    };
    match given {
        None => otherwise.to_owned(),
        Some(h) => {
            let cs = chars_of(h);
            let n = position(cs.as_slice(), '.');
            let first = slice_subrange(cs.as_slice(), 0, n);
            assert(first@ =~= first_part(h@));
            if n == 0 {
                return otherwise.to_owned();
            }
            string_of(first)
        },
    }
}

// ---- the moment -------------------------------------------------------------

/// Seconds since the epoch, as they are written down. Before the epoch is none at all: a wrong
/// timestamp sorts a list oddly, and refusing to go on would be a much worse trade.
pub open spec fn stamp(since: Option<u64>) -> int {
    match since {
        None => 0,
        Some(s) => if s <= i64::MAX {
            s as int
        } else {
            s - 0x1_0000_0000_0000_0000
        },
    }
}

/// Seconds since the epoch, as they are written down.
pub fn stamped(since: Option<u64>) -> (r: i64)
    ensures
        r == stamp(since),
{
    match since {
        None => 0,
        Some(s) => if s <= 0x7fff_ffff_ffff_ffff {
            s as i64
        } else {
            let over: u64 = s - 0x8000_0000_0000_0000;
            (over as i64) + i64::MIN
        },
    }
}

/// `std::time::SystemTime::now`, as whole seconds since the epoch, and nothing where the clock is
/// before it. What the clock says is the machine's own affair, so nothing is said of it.
#[verifier::external_body]
fn since_epoch() -> (r: Option<u64>) {
    match std::time::SystemTime::now().duration_since(std::time::UNIX_EPOCH) {
        Ok(d) => Some(d.as_secs()),
        Err(_) => None,
    }
}

/// Seconds since the epoch, or none at all if the clock is before it.
pub fn now_secs() -> (r: i64)
    ensures
        exists|since: Option<u64>| r == #[trigger] stamp(since),
{
    let since = since_epoch();
    let r = stamped(since);
    assert(r == stamp(since));
    r
}

// ---- conversations ----------------------------------------------------------

/// Where the commands a driver offers are filed: by its instance and the directory, which is what
/// they depend on.
pub fn commands_key(instance: Option<&str>, cwd: &str) -> (r: Option<String>)
    ensures
        match instance {
            None => r is None,
            Some(i) => r is Some && r->0@ == "commands:"@ + i@ + ":"@ + cwd@,
        },
{
    match instance {
        None => None,
        Some(i) => {
            let mut r = "commands:".to_owned();
            r.push_str(i);
            r.push_str(":");
            r.push_str(cwd);
            Some(r)
        },
    }
}

/// Whether what a driver offers is written down. An empty list is a driver that answered nothing,
/// not one that accepts nothing, and would replace a good list with a blank one.
pub fn remember_commands(offered: usize, filed: bool, same: bool) -> (r: bool)
    ensures
        r == (offered > 0 && filed && !same),
{
    offered > 0 && filed && !same
}

/// A conversation that was saved.
#[derive(Debug)]
pub struct Saved {
    pub id: String,
    pub archived: bool,
}

/// Which of some conversations to land in: the first that is not put away.
pub open spec fn first_open(v: Seq<Saved>) -> Option<int>
    decreases v.len(),
{
    if v.len() == 0 {
        None
    } else if !v[0].archived {
        Some(0)
    } else {
        match first_open(v.skip(1)) {
            Some(i) => Some(i + 1),
            None => None,
        }
    }
}

/// Which conversation a restored workspace opens on: the one you were in, or else the first that is
/// not put away. With every one put away there is none, because that is what you asked for.
pub fn restore_sessions(active: Option<String>, saved: &Vec<Saved>) -> (r: Option<String>)
    ensures
        match active {
            Some(_) => r == active,
            None => match first_open(saved@) {
                Some(i) => r is Some && r->0@ == saved@[i].id@,
                None => r is None,
            },
        },
{
    if active.is_some() {
        return active;
    }
    let mut i: usize = 0;
    assert(saved@.skip(0) =~= saved@);
    while i < saved.len()
        invariant
            i <= saved@.len(),
            active is None,
            first_open(saved@) == (match first_open(saved@.skip(i as int)) {
                Some(k) => Some(k + i),
                None => None,
            }),
        decreases saved@.len() - i,
    {
        assert(saved@.skip(i as int).skip(1) =~= saved@.skip(i + 1));
        if !saved[i].archived {
            return Some(saved[i].id.clone());
        }
        i = i + 1;
    }
    None
}

} // verus!
