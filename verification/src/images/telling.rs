//! How a picture is told from what is not one, whatever it is called and wherever it comes from.

use crate::images::pasting::{dragged, extension_of, is_named_as_picture, is_one_line, leaf_of};
use crate::images::{kind_said, opens_with, size_said, sniffed, tenths};
use crate::letters::{
    all_white, holding_is_standing_within, lower_case_changes_capitals_alone,
    replacing_changes_only_what_is_replaced, the_last_place_is_the_last,
    trimming_takes_white_space_alone,
};
use crate::paths::at_home;
use crate::text::{begins, decimal, is_white, trim_of};
use crate::words::{last_position_of, lower, replaced};
use vstd::prelude::*;

verus! {

/// Whether one text spells a word of small letters, in any mixture of small letters and capitals.
pub open spec fn spells(s: Seq<char>, word: Seq<char>) -> bool {
    &&& s.len() == word.len()
    &&& forall|i: int|
        0 <= i < s.len() ==> #[trigger] s[i] == word[i] || ('A' <= s[i] <= 'Z' && s[i] as int + 32
            == word[i] as int)
}

/// Whether a text spells the extension of a picture.
pub open spec fn spells_a_picture(e: Seq<char>) -> bool {
    spells(e, "png"@) || spells(e, "jpg"@) || spells(e, "jpeg"@) || spells(e, "gif"@) || spells(
        e,
        "webp"@,
    )
}

/// Whether there are no capitals in a word.
pub open spec fn is_small(word: Seq<char>) -> bool {
    forall|i: int| 0 <= i < word.len() ==> !('A' <= #[trigger] word[i] <= 'Z')
}

pub proof fn lemma_spells(s: Seq<char>, word: Seq<char>)
    requires
        is_small(word),
    ensures
        spells(s, word) == (lower(s) == word),
{
    lower_case_changes_capitals_alone(s);
    if spells(s, word) {
        assert(lower(s) =~= word) by {
            assert forall|i: int| 0 <= i < s.len() implies lower(s)[i] == word[i] by {
                assert(s[i] == word[i] || ('A' <= s[i] <= 'Z' && s[i] as int + 32 == word[i] as int));
            }
        }
    }
    if lower(s) == word {
        assert forall|i: int| 0 <= i < s.len() implies #[trigger] s[i] == word[i] || ('A' <= s[i]
            <= 'Z' && s[i] as int + 32 == word[i] as int) by {
            assert(lower(s)[i] == word[i]);
        }
    }
}

proof fn lemma_leaf(dir: Seq<char>, name: Seq<char>)
    requires
        dir.len() == 0 || dir.last() == '/',
        forall|i: int| 0 <= i < name.len() ==> #[trigger] name[i] != '/',
    ensures
        leaf_of(dir + name) == name,
{
    let p = dir + name;
    the_last_place_is_the_last(p, '/');
    let k = last_position_of(p, '/');
    if k >= dir.len() {
        assert(p[k] == name[k - dir.len()]);
    }
    if k < dir.len() - 1 {
        assert(p[dir.len() - 1] == '/');
    }
    assert(k == dir.len() - 1);
    assert(p.skip(k + 1) =~= name);
}

/// A path is called what a picture is called where its last name has something before its last dot,
/// and after it one of `png`, `jpg`, `jpeg`, `gif` and `webp`, in any case of letters. No other path
/// is, whatever directory it is in.
pub proof fn a_picture_is_known_by_its_extension(dir: Seq<char>, name: Seq<char>, e: Seq<char>)
    requires
        dir.len() == 0 || dir.last() == '/',
        forall|i: int| 0 <= i < name.len() ==> #[trigger] name[i] != '/',
        forall|i: int| 0 <= i < e.len() ==> #[trigger] e[i] != '/' && e[i] != '.',
    ensures
        name.len() > 0 ==> is_named_as_picture(dir + (name + seq!['.'] + e)) == spells_a_picture(e),
        name.len() > 0 ==> extension_of(dir + (name + seq!['.'] + e)) == Some(e),
        !is_named_as_picture(dir + (seq!['.'] + e)),
        !is_named_as_picture(dir + e),
{
    let leaf = name + seq!['.'] + e;
    assert forall|i: int| 0 <= i < leaf.len() implies #[trigger] leaf[i] != '/' by {
        if i < name.len() {
            assert(leaf[i] == name[i]);
        } else if i > name.len() {
            assert(leaf[i] == e[i - name.len() - 1]);
        }
    }
    lemma_leaf(dir, leaf);
    the_last_place_is_the_last(leaf, '.');
    let k = last_position_of(leaf, '.');
    assert(leaf[name.len() as int] == '.');
    if k > name.len() {
        assert(leaf[k] == e[k - name.len() - 1]);
    }
    assert(leaf.skip(k + 1) =~= e);
    reveal_strlit("png");
    reveal_strlit("jpg");
    reveal_strlit("jpeg");
    reveal_strlit("gif");
    reveal_strlit("webp");
    lemma_spells(e, "png"@);
    lemma_spells(e, "jpg"@);
    lemma_spells(e, "jpeg"@);
    lemma_spells(e, "gif"@);
    lemma_spells(e, "webp"@);
    let hidden = seq!['.'] + e;
    assert forall|i: int| 0 <= i < hidden.len() implies #[trigger] hidden[i] != '/' by {
        if i > 0 {
            assert(hidden[i] == e[i - 1]);
        }
    }
    lemma_leaf(dir, hidden);
    the_last_place_is_the_last(hidden, '.');
    let h = last_position_of(hidden, '.');
    if h > 0 {
        assert(hidden[h] == e[h - 1]);
    }
    lemma_leaf(dir, e);
    the_last_place_is_the_last(e, '.');
}

/// Whether a text is a path as somebody would type it: one line of it, with no white space around
/// it, and nothing in it that a drag or a shell would have put there.
pub open spec fn is_plain_path(p: Seq<char>) -> bool {
    &&& p.len() > 0
    &&& !is_white(p[0])
    &&& !is_white(p.last())
    &&& p[0] != '"' && p[0] != '\'' && p[0] != '~'
    &&& !begins(p, "file://"@)
    &&& forall|i: int| 0 <= i < p.len() ==> #[trigger] p[i] != '\n' && p[i] != '\\'
}

pub proof fn lemma_trimmed(p: Seq<char>)
    requires
        p.len() > 0,
        !is_white(p[0]),
        !is_white(p.last()),
    ensures
        trim_of(p) == p,
{
    trimming_takes_white_space_alone(p);
    let (i, j) = choose|i: int, j: int|
        {
            &&& 0 <= i <= j <= p.len()
            &&& trim_of(p) == #[trigger] p.subrange(i, j)
            &&& all_white(p.take(i))
            &&& all_white(p.skip(j))
        };
    if i > 0 {
        assert(p.take(i)[0] == p[0]);
        assert(is_white(p.take(i)[0]));
    }
    if j < p.len() {
        let n = p.len() - j;
        assert(p.skip(j)[n - 1] == p.last());
        assert(is_white(p.skip(j)[n - 1]));
    }
    assert(p.subrange(0, p.len() as int) =~= p);
}

proof fn lemma_no_backslash(p: Seq<char>, by: Seq<char>)
    requires
        forall|i: int| 0 <= i < p.len() ==> #[trigger] p[i] != '\\',
    ensures
        replaced(p, seq!['\\', ' '], by) == p,
{
    let pat = seq!['\\', ' '];
    let none = Seq::<char>::empty();
    assert forall|j: int| 0 <= j < p.len() implies !begins(#[trigger] (p + pat + none).skip(j), pat)
        && !begins(p.skip(j), pat) by {
        let t = (p + pat + none).skip(j);
        assert(t[0] == p[j]);
        if begins(t, pat) {
            assert(t.take(2)[0] == pat[0]);
        }
        if begins(p.skip(j), pat) {
            assert(p.skip(j).take(2)[0] == pat[0]);
            assert(p.skip(j)[0] == p[j]);
        }
    }
    replacing_changes_only_what_is_replaced(p, pat, by, none);
}

/// A plain path is taken as it stands.
pub proof fn a_plain_path_is_taken_as_it_stands(p: Seq<char>, home: Option<Seq<char>>)
    requires
        is_plain_path(p),
    ensures
        trim_of(p) == p,
        is_one_line(p),
        dragged(p) == p,
        at_home(p, home) == p,
        !begins(p, seq!['~', '\\']),
{
    lemma_trimmed(p);
    lemma_no_backslash(p, seq![' ']);
    if p.contains('\n') {
        let i = choose|i: int| 0 <= i < p.len() && p[i] == '\n';
        assert(p[i] != '\n');
    }
    if begins(p, seq!['~', '\\']) {
        assert(p.take(2)[0] == seq!['~', '\\'][0]);
    }
}

/// A path that a drag put in quotes is the path between them.
pub proof fn quotes_around_a_path_are_not_part_of_it(p: Seq<char>)
    requires
        is_plain_path(p),
    ensures
        dragged(seq!['"'] + p + seq!['"']) == p,
        dragged(seq!['\''] + p + seq!['\'']) == p,
{
    lemma_no_backslash(p, seq![' ']);
    let a = seq!['"'] + p + seq!['"'];
    assert(a.subrange(1, a.len() - 1) =~= p);
    let b = seq!['\''] + p + seq!['\''];
    assert(b.subrange(1, b.len() - 1) =~= p);
}

/// A space that a shell escaped is a space.
pub proof fn an_escaped_space_is_a_space(a: Seq<char>, b: Seq<char>)
    requires
        is_plain_path(a),
        forall|i: int| 0 <= i < b.len() ==> #[trigger] b[i] != '\\',
        !begins(a + seq!['\\', ' '] + b, "file://"@),
    ensures
        dragged(a + seq!['\\', ' '] + b) == a + seq![' '] + b,
{
    let pat = seq!['\\', ' '];
    let s = a + pat + b;
    assert(s[0] == a[0]);
    assert forall|j: int| 0 <= j < a.len() implies !begins(#[trigger] s.skip(j), pat) && !begins(
        a.skip(j),
        pat,
    ) by {
        assert(s.skip(j)[0] == a[j]);
        if begins(s.skip(j), pat) {
            assert(s.skip(j).take(2)[0] == pat[0]);
        }
        if begins(a.skip(j), pat) {
            assert(a.skip(j).take(2)[0] == pat[0]);
            assert(a.skip(j)[0] == a[j]);
        }
    }
    replacing_changes_only_what_is_replaced(a, pat, seq![' '], b);
    lemma_no_backslash(b, seq![' ']);
}

/// Bytes are what their first few say, and nothing else: a PNG, a JPEG, either GIF, or a WebP in its
/// container.
pub proof fn bytes_are_what_they_begin_with(bytes: Seq<u8>)
    ensures
        ({
            let png = seq![0x89u8, 0x50, 0x4e, 0x47, 0x0d, 0x0a, 0x1a, 0x0a];
            let jpeg = seq![0xffu8, 0xd8, 0xff];
            let gif87 = seq![0x47u8, 0x49, 0x46, 0x38, 0x37, 0x61];
            let gif89 = seq![0x47u8, 0x49, 0x46, 0x38, 0x39, 0x61];
            let webp = seq![0x57u8, 0x45, 0x42, 0x50];
            let riff = seq![0x52u8, 0x49, 0x46, 0x46];
            let is_png = png.is_prefix_of(bytes);
            let is_jpeg = jpeg.is_prefix_of(bytes);
            let is_gif = gif87.is_prefix_of(bytes) || gif89.is_prefix_of(bytes);
            let is_webp = bytes.len() > 12 && riff.is_prefix_of(bytes) && bytes.subrange(8, 12)
                == webp;
            &&& is_png == (sniffed(bytes) is Some && sniffed(bytes)->0@ == "image/png"@)
            &&& is_jpeg == (sniffed(bytes) is Some && sniffed(bytes)->0@ == "image/jpeg"@)
            &&& is_gif == (sniffed(bytes) is Some && sniffed(bytes)->0@ == "image/gif"@)
            &&& is_webp == (sniffed(bytes) is Some && sniffed(bytes)->0@ == "image/webp"@)
            &&& (sniffed(bytes) is None) == !(is_png || is_jpeg || is_gif || is_webp)
        }),
{
    reveal_strlit("image/png");
    reveal_strlit("image/jpeg");
    reveal_strlit("image/gif");
    reveal_strlit("image/webp");
    assert("image/png"@[6] == 'p' && "image/gif"@[6] == 'g');
    assert("image/jpeg"@[6] == 'j' && "image/webp"@[6] == 'w');
    let png = seq![0x89u8, 0x50, 0x4e, 0x47, 0x0d, 0x0a, 0x1a, 0x0a];
    let jpeg = seq![0xffu8, 0xd8, 0xff];
    let gif87 = seq![0x47u8, 0x49, 0x46, 0x38, 0x37, 0x61];
    let gif89 = seq![0x47u8, 0x49, 0x46, 0x38, 0x39, 0x61];
    let webp = seq![0x57u8, 0x45, 0x42, 0x50];
    let riff = seq![0x52u8, 0x49, 0x46, 0x46];
    lemma_opens(bytes, png);
    lemma_opens(bytes, jpeg);
    lemma_opens(bytes, gif87);
    lemma_opens(bytes, gif89);
    lemma_opens(bytes, riff);
    if bytes.len() > 12 {
        lemma_opens(bytes.skip(8), webp);
        assert(bytes.skip(8).take(4) =~= bytes.subrange(8, 12));
    }
    assert(png[0] == 0x89 && jpeg[0] == 0xff && gif87[0] == 0x47 && gif89[0] == 0x47 && riff[0]
        == 0x52);
}

proof fn lemma_opens(bytes: Seq<u8>, lead: Seq<u8>)
    requires
        lead.len() > 0,
    ensures
        opens_with(bytes, lead) == lead.is_prefix_of(bytes),
        opens_with(bytes, lead) ==> bytes[0] == lead[0],
{
    if opens_with(bytes, lead) {
        assert(bytes.take(lead.len() as int)[0] == bytes[0]);
    }
}

/// A media type is said by what follows `image/`, or as it stands.
pub proof fn a_kind_is_said_without_its_family(kind: Seq<char>)
    ensures
        kind_said("image/"@ + kind) == kind,
        !begins(kind, "image/"@) ==> kind_said(kind) == kind,
{
    holding_is_standing_within(seq![], "image/"@, kind);
}

/// The tenths that a size is said in are the nearest to it.
pub proof fn a_size_is_said_to_the_nearest_tenth(bytes: nat)
    ensures
        2 * (tenths(bytes) * 1048576 - bytes * 10) <= 1048576,
        2 * (bytes * 10 - tenths(bytes) * 1048576) <= 1048576,
        bytes >= 1048576 ==> size_said(bytes) == decimal(tenths(bytes) / 10) + "."@ + decimal(
            tenths(bytes) % 10,
        ) + " MB"@,
        1024 <= bytes < 1048576 ==> exists|k: nat|
            size_said(bytes) == #[trigger] decimal(k) + " KB"@ && k * 1024 <= bytes < (k + 1)
                * 1024,
        bytes < 1024 ==> size_said(bytes) == decimal(bytes) + " B"@,
{
    if 1024 <= bytes < 1048576 {
        let k = bytes / 1024;
        assert(size_said(bytes) == decimal(k) + " KB"@);
    }
}

} // verus!
