//! The chrome around the composer: the rule, what is waiting, the prompt, the placeholder and the
//! shortcuts.
//!
//! All of it is virtual text rather than characters in the buffer, which is the only version that is
//! correct: the composer's contents *are* the message.

use crate::host::rank::{in_rank, indices, rank, ranks, Rank};
use crate::host::reading::{Pending, SelectShape};
use crate::markdown::block::push_repeated;
use crate::markdown::model::repeated;
use crate::measure::{columns_of, display_width};
use crate::text::{chars_of, decimal, decimal_of, string_of, trim, trim_of};
use crate::words::{lines, lines_of, slices};
use vstd::prelude::*;
use vstd::slice::slice_subrange;

verus! {

/// Some virtual text of one group.
#[derive(Debug)]
pub struct Chunk {
    pub text: String,
    pub hl: &'static str,
}

/// Some virtual text of one group, as plain values.
pub struct Piece {
    pub text: Seq<char>,
    pub hl: &'static str,
}

impl View for Chunk {
    type V = Piece;

    open spec fn view(&self) -> Piece {
        Piece { text: self.text@, hl: self.hl }
    }
}

/// Some chunks, as plain values.
pub open spec fn pieces(v: Seq<Chunk>) -> Seq<Piece> {
    v.map_values(|c: Chunk| c@)
}

pub open spec fn piece(text: Seq<char>, hl: &'static str) -> Piece {
    Piece { text, hl }
}

/// A virtual-text chunk.
pub fn chunk(text: &str, hl: &'static str) -> (r: Chunk)
    ensures
        r@ == piece(text@, hl),
{
    Chunk { text: text.to_owned(), hl }
}

fn put_chunk(v: &mut Vec<Chunk>, text: &str, hl: &'static str)
    ensures
        pieces(final(v)@) == pieces(old(v)@).push(piece(text@, hl)),
{
    let c = chunk(text, hl);
    let ghost one = c@;
    v.push(c);
    assert(pieces(v@) =~= pieces(old(v)@).push(one));
}

// ---- shortcuts --------------------------------------------------------------

/// A key and what it does.
pub struct Shortcut {
    pub keys: Seq<char>,
    pub label: Seq<char>,
}

/// What a shortcut takes on the row, with the gap before it.
pub open spec fn shortcut_cost(s: Shortcut, gap: nat) -> nat {
    gap + columns_of(s.keys) + 1 + columns_of(s.label)
}

/// A shortcut on the row, with the gap before it.
pub open spec fn shortcut_pieces(s: Shortcut, gap: bool) -> Seq<Piece> {
    let body = seq![
        piece(s.keys, "Composer.HintKey"),
        piece(" "@ + s.label, "Composer.Hint"),
    ];
    if gap {
        seq![piece("  "@, "Composer.Hint")] + body
    } else {
        body
    }
}

/// A row with as many of some shortcuts as fit after what is on it already. There is no gap before
/// the first where the row has no more than `heads` chunks. Truncation drops whole shortcuts from
/// the end: half of one reads as a key that exists and does something else.
pub open spec fn with_shortcuts(
    row: Seq<Piece>,
    used: nat,
    all: Seq<Shortcut>,
    width: nat,
    heads: nat,
) -> Seq<Piece>
    decreases all.len(),
{
    if all.len() == 0 {
        row
    } else {
        let gap = row.len() > heads;
        let cost = shortcut_cost(
            all[0],
            if gap {
                2
            } else {
                0
            },
        );
        if used + cost > width {
            row
        } else {
            with_shortcuts(row + shortcut_pieces(all[0], gap), used + cost, all.skip(1), width, heads)
        }
    }
}

/// The shortcuts that some pairs of strings are.
pub open spec fn shortcuts(v: Seq<(String, String)>) -> Seq<Shortcut> {
    v.map_values(|p: (String, String)| Shortcut { keys: p.0@, label: p.1@ })
}

/// Put as many shortcuts on a row as fit. `used` is what the row takes already.
fn fit_shortcuts(
    row: &mut Vec<Chunk>,
    used: u128,
    all: &Vec<(String, String)>,
    width: usize,
    heads: usize,
)
    requires
        used <= 4 * (usize::MAX as u128),
    ensures
        pieces(final(row)@) == with_shortcuts(
            pieces(old(row)@),
            used as nat,
            shortcuts(all@),
            width as nat,
            heads as nat,
        ),
{
    let ghost ss = shortcuts(all@);
    let ghost start = pieces(row@);
    let mut taken: u128 = used;
    let mut i: usize = 0;
    assert(ss.skip(0) =~= ss);
    while i < all.len()
        invariant
            i <= all@.len(),
            ss == shortcuts(all@),
            start == pieces(old(row)@),
            taken <= 4 * (usize::MAX as u128),
            with_shortcuts(start, used as nat, ss, width as nat, heads as nat) == with_shortcuts(
                pieces(row@),
                taken as nat,
                ss.skip(i as int),
                width as nat,
                heads as nat,
            ),
        decreases all@.len() - i,
    {
        let ghost rest = ss.skip(i as int);
        proof {
            assert(rest[0] == ss[i as int]);
            assert(rest.skip(1) =~= ss.skip(i + 1));
            assert(pieces(row@).len() == row@.len());
        }
        let keys = &all[i].0;
        let label = &all[i].1;
        let gap = row.len() > heads;
        let cost: u128 = (if gap {
            2u128
        } else {
            0u128
        }) + display_width(keys.as_str()) as u128 + 1 + display_width(label.as_str()) as u128;
        if taken + cost > width as u128 {
            return;
        }
        let ghost was = pieces(row@);
        if gap {
            put_chunk(row, "  ", "Composer.Hint");
        }
        put_chunk(row, keys.as_str(), "Composer.HintKey");
        let said = crate::words::concat(" ", label.as_str());
        put_chunk(row, said.as_str(), "Composer.Hint");
        proof {
            assert(pieces(row@) =~= was + shortcut_pieces(rest[0], gap));
        }
        taken = taken + cost;
        i = i + 1;
    }
    assert(ss.skip(i as int) =~= seq![]);
}

/// A shortcut that a plugin, or the host, put on the row under the composer.
#[derive(Debug)]
pub struct Hint {
    pub key: String,
    pub keys: String,
    pub label: String,
    pub priority: i32,
}

/// What hints are put in order by.
pub open spec fn hint_ranks(hints: Seq<Hint>) -> Seq<Rank> {
    hints.map_values(|h: Hint| (h.priority as int, h.key@))
}

/// The hints in the order whoever registered them asked for.
pub open spec fn hints_in_order(hints: Seq<Hint>) -> Seq<Shortcut> {
    in_rank(hint_ranks(hints), hints.len() as int).map_values(
        |i: int| Shortcut { keys: hints[i].keys@, label: hints[i].label@ },
    )
}

/// The row of shortcuts.
pub open spec fn hint_pieces(hints: Seq<Hint>, width: nat) -> Seq<Piece> {
    with_shortcuts(seq![], 0, hints_in_order(hints), width, 0)
}

/// The shortcuts, as many as fit, in the order whoever registered them asked for. A row too narrow
/// for even one simply does not appear.
pub fn hint_row(enabled: bool, hints: &Vec<Hint>, width: usize) -> (r: Option<Vec<Chunk>>)
    ensures
        match r {
            Some(v) => enabled && pieces(v@) == hint_pieces(hints@, width as nat) && v@.len() > 0,
            None => !enabled || hint_pieces(hints@, width as nat).len() == 0,
        },
{
    if !enabled {
        return None;
    }
    let mut keys: Vec<(i32, String)> = Vec::new();
    let mut i: usize = 0;
    while i < hints.len()
        invariant
            i <= hints@.len(),
            keys@.len() == i,
            forall|j: int|
                0 <= j < i ==> (#[trigger] keys@[j]).0 == hints@[j].priority && keys@[j].1@
                    == hints@[j].key@,
        decreases hints@.len() - i,
    {
        keys.push((hints[i].priority, hints[i].key.clone()));
        i = i + 1;
    }
    assert(ranks(keys@) =~= hint_ranks(hints@));
    let order = rank(&keys);
    let mut all: Vec<(String, String)> = Vec::new();
    let mut i: usize = 0;
    while i < order.len()
        invariant
            i <= order@.len(),
            forall|i: int| 0 <= i < order@.len() ==> #[trigger] order@[i] < hints@.len(),
            all@.len() == i,
            forall|j: int|
                0 <= j < i ==> (#[trigger] all@[j]).0@ == hints@[order@[j] as int].keys@
                    && all@[j].1@ == hints@[order@[j] as int].label@,
        decreases order@.len() - i,
    {
        all.push((hints[order[i]].keys.clone(), hints[order[i]].label.clone()));
        i = i + 1;
    }
    proof {
        let want = hints_in_order(hints@);
        assert(indices(order@).len() == order@.len());
        assert forall|k: int| 0 <= k < want.len() implies shortcuts(all@)[k] == want[k] by {
            assert(indices(order@)[k] == order@[k]);
        }
        assert(shortcuts(all@) =~= want);
    }
    let mut row: Vec<Chunk> = Vec::new();
    assert(pieces(row@) =~= seq![]);
    fit_shortcuts(&mut row, 0, &all, width, 0);
    assert(pieces(row@).len() == row@.len());
    if row.len() == 0 {
        None
    } else {
        Some(row)
    }
}

/// What the keys do while reading. A pending key takes the row over: once it is down, the only
/// useful thing to know is what the second can be.
pub open spec fn reading_keys(
    pending: Option<Pending>,
    anchored: bool,
    shape: SelectShape,
    card: Option<bool>,
    tab: Seq<char>,
) -> Seq<(Seq<char>, Seq<char>)> {
    match pending {
        Some(Pending::Yank) => seq![
            ("y"@, "line"@),
            ("c"@, "code block"@),
            ("m"@, "this turn"@),
            ("a"@, "everything"@),
            ("i"@, "inside"@),
            ("w $ j"@, "motion"@),
        ],
        Some(Pending::G) => seq![("g"@, "top"@), ("e"@, "word end back"@), ("v"@, "reselect"@)],
        Some(Pending::Z) => seq![
            ("z"@, "centre"@),
            ("t"@, "top"@),
            ("b"@, "bottom"@),
            ("a"@, "card"@),
        ],
        Some(Pending::Find(_, _)) => seq![(""@, "a character"@)],
        Some(Pending::Object(_, _)) => seq![
            ("w"@, "word"@),
            ("p"@, "paragraph"@),
            ("\" ' `"@, "quotes"@),
            ("( [ {"@, "brackets"@),
        ],
        None => if anchored {
            seq![
                ("y"@, "copy"@),
                ("hjkl"@, "extend"@),
                if shape == SelectShape::Line {
                    ("v"@, "characters"@)
                } else {
                    ("V"@, "whole lines"@)
                },
                ("o"@, "other end"@),
                ("iw"@, "word"@),
                ("esc"@, "drop"@),
            ]
        } else {
            let plain = seq![
                ("y"@, "copy"@),
                ("v"@, "select"@),
                ("[ ]"@, "turn"@),
                ("{ }"@, "block"@),
                ("/"@, "find"@),
                ("i"@, "write"@),
                ("esc"@, "leave"@),
            ];
            match card {
                Some(open) => seq![
                    (
                        tab,
                        if open {
                            "fold"@
                        } else {
                            "expand"@
                        },
                    ),
                ] + plain,
                None => plain,
            }
        },
    }
}

/// What stands on the reading row before the keys: that something is waited for, and the count that
/// has been typed.
pub open spec fn reading_heads(waiting: bool, count: nat) -> Seq<Piece> {
    let a = if waiting {
        seq![piece("waiting\u{2026}  "@, "Status.Pending")]
    } else {
        seq![]
    };
    if count > 0 {
        a.push(piece(decimal(count) + "  "@, "Accent"))
    } else {
        a
    }
}

/// How many columns those take.
pub open spec fn heads_width(waiting: bool, count: nat) -> nat {
    (if waiting {
        columns_of("waiting\u{2026}  "@)
    } else {
        0
    }) + (if count > 0 {
        columns_of(decimal(count) + "  "@)
    } else {
        0
    })
}

/// The shortcuts that some pairs are.
pub open spec fn as_shortcuts(v: Seq<(Seq<char>, Seq<char>)>) -> Seq<Shortcut> {
    v.map_values(|p: (Seq<char>, Seq<char>)| Shortcut { keys: p.0, label: p.1 })
}

fn said(keys: &str, label: &str) -> (r: (String, String))
    ensures
        r.0@ == keys@,
        r.1@ == label@,
{
    (keys.to_owned(), label.to_owned())
}

fn reading_pairs(
    pending: Option<Pending>,
    anchored: bool,
    shape: SelectShape,
    card: Option<bool>,
    tab: &str,
) -> (r: Vec<(String, String)>)
    ensures
        shortcuts(r@) == as_shortcuts(reading_keys(pending, anchored, shape, card, tab@)),
{
    let ghost want = as_shortcuts(reading_keys(pending, anchored, shape, card, tab@));
    let r = match pending {
        Some(Pending::Yank) => vec![
            said("y", "line"),
            said("c", "code block"),
            said("m", "this turn"),
            said("a", "everything"),
            said("i", "inside"),
            said("w $ j", "motion"),
        ],
        Some(Pending::G) => vec![said("g", "top"), said("e", "word end back"), said("v", "reselect")],
        Some(Pending::Z) => vec![
            said("z", "centre"),
            said("t", "top"),
            said("b", "bottom"),
            said("a", "card"),
        ],
        // Waiting for a literal character, so listing keys would be a lie about what the next press
        // does.
        Some(Pending::Find(_, _)) => vec![said("", "a character")],
        Some(Pending::Object(_, _)) => vec![
            said("w", "word"),
            said("p", "paragraph"),
            said("\" ' `", "quotes"),
            said("( [ {", "brackets"),
        ],
        None => if anchored {
            vec![
                said("y", "copy"),
                said("hjkl", "extend"),
                if shape == SelectShape::Line {
                    said("v", "characters")
                } else {
                    said("V", "whole lines")
                },
                said("o", "other end"),
                said("iw", "word"),
                said("esc", "drop"),
            ]
        } else {
            let mut plain = vec![
                said("y", "copy"),
                said("v", "select"),
                said("[ ]", "turn"),
                said("{ }", "block"),
                said("/", "find"),
                said("i", "write"),
                said("esc", "leave"),
            ];
            match card {
                // First, because it is about the row you are on and the others are about
                // everywhere.
                Some(open) => {
                    let mut all = vec![
                        said(
                            tab,
                            if open {
                                "fold"
                            } else {
                                "expand"
                            },
                        ),
                    ];
                    all.append(&mut plain);
                    all
                },
                None => plain,
            }
        },
    };
    assert(shortcuts(r@) =~= want);
    r
}

/// The row of keys while reading.
pub open spec fn reading_pieces(
    pending: Option<Pending>,
    anchored: bool,
    shape: SelectShape,
    count: nat,
    card: Option<bool>,
    tab: Seq<char>,
    width: nat,
) -> Seq<Piece> {
    with_shortcuts(
        reading_heads(pending is Some, count),
        heads_width(pending is Some, count),
        as_shortcuts(reading_keys(pending, anchored, shape, card, tab)),
        width,
        if pending is Some {
            1
        } else {
            0
        },
    )
}

/// What the keys do while reading, as many as fit. `card` says whether the cursor is on a card that
/// can be opened or folded, and which; `count` is the count typed so far, or none.
pub fn reading_hints(
    pending: Option<Pending>,
    anchored: bool,
    shape: SelectShape,
    count: u32,
    card: Option<bool>,
    tab: &str,
    width: usize,
) -> (r: Vec<Chunk>)
    ensures
        pieces(r@) == reading_pieces(
            pending,
            anchored,
            shape,
            count as nat,
            card,
            tab@,
            width as nat,
        ),
{
    let all = reading_pairs(pending, anchored, shape, card, tab);
    let mut row: Vec<Chunk> = Vec::new();
    let mut used: u128 = 0;
    assert(pieces(row@) =~= seq![]);
    if pending.is_some() {
        used = used + display_width("waiting\u{2026}  ") as u128;
        put_chunk(&mut row, "waiting\u{2026}  ", "Status.Pending");
        assert(pieces(row@) =~= seq![piece("waiting\u{2026}  "@, "Status.Pending")]);
    }
    // A count that has been typed and not yet spent: without it the digit is a press with no effect,
    // which is indistinguishable from a key that does nothing.
    if count > 0 {
        let mut head = decimal_of(count as u64);
        head.push_str("  ");
        used = used + display_width(head.as_str()) as u128;
        put_chunk(&mut row, head.as_str(), "Accent");
    }
    assert(pieces(row@) =~= reading_heads(pending is Some, count as nat));
    fit_shortcuts(
        &mut row,
        used,
        &all,
        width,
        if pending.is_some() {
            1
        } else {
            0
        },
    );
    row
}

// ---- the chrome -------------------------------------------------------------

/// Where virtual text goes.
#[derive(Debug, Clone, Copy, PartialEq, Eq, Structural)]
pub enum Place {
    Above,
    Inline,
    Eol,
    Below,
}

/// Some virtual text on the composer.
#[derive(Debug)]
pub struct Chrome {
    pub row: usize,
    pub place: Place,
    pub chunks: Vec<Chunk>,
}

/// Some virtual text on the composer, as plain values.
pub struct Trim {
    pub row: int,
    pub place: Place,
    pub pieces: Seq<Piece>,
}

impl View for Chrome {
    type V = Trim;

    open spec fn view(&self) -> Trim {
        Trim { row: self.row as int, place: self.place, pieces: pieces(self.chunks@) }
    }
}

/// Some virtual text, as plain values.
pub open spec fn trims(v: Seq<Chrome>) -> Seq<Trim> {
    v.map_values(|c: Chrome| c@)
}

/// A row above the composer.
pub open spec fn above(p: Seq<Piece>) -> Trim {
    Trim { row: 0, place: Place::Above, pieces: p }
}

/// The row for an attached image. Labelled once: a column of the same word is not the part you are
/// reading. The last says how to take it off.
pub open spec fn attached_row(label: Seq<char>, i: int, n: int, ascii: bool) -> Seq<Piece> {
    let row = seq![
        piece("  "@, "Composer.Hint"),
        piece(
            if i == 0 {
                "attached "@
            } else {
                "         "@
            },
            "Status.Pending",
        ),
        piece(label, "Composer.Hint"),
    ];
    if i + 1 == n {
        row + seq![
            piece("  "@, "Composer.Hint"),
            piece(
                if ascii {
                    "Bksp"@
                } else {
                    "\u{232b}"@
                },
                "Composer.HintKey",
            ),
            piece(" take off"@, "Composer.Hint"),
        ]
    } else {
        row
    }
}

/// The first line of a message, without the white space around it.
pub open spec fn first_line(text: Seq<char>) -> Seq<char> {
    let ls = lines_of(text);
    if ls.len() > 0 {
        trim_of(ls[0])
    } else {
        trim_of(seq![])
    }
}

/// The most queued messages that are shown.
pub const MOST_QUEUED: usize = 3;

/// What the last queued message that is shown says of those that are not.
pub open spec fn more_queued(more: nat) -> Seq<char> {
    if more > 0 {
        "  (+"@ + decimal(more) + " more)"@
    } else {
        seq![]
    }
}

/// How many characters of a queued message there is room for.
pub open spec fn queued_room(width: nat, tail: Seq<char>) -> nat {
    let taken = 9 + tail.len() + columns_of("^Y"@) + 2 + 10;
    if width >= taken {
        (width - taken) as nat
    } else {
        0
    }
}

/// As much of a text as there is room for.
pub open spec fn shortened(s: Seq<char>, room: nat) -> Seq<char> {
    if s.len() <= room {
        s
    } else {
        s.take(room as int)
    }
}

/// The row for a queued message: of the first `take`, number `i`, with `more` that are not shown.
pub open spec fn queued_row(text: Seq<char>, i: int, take: int, more: nat, width: nat) -> Seq<
    Piece,
> {
    let last = i + 1 == take;
    let tail = if last {
        more_queued(more)
    } else {
        seq![]
    };
    let row = seq![
        piece("  "@, "Composer.Hint"),
        piece(
            if i == 0 {
                "queued "@
            } else {
                "       "@
            },
            "Status.Pending",
        ),
        piece(shortened(first_line(text), queued_room(width, tail)) + tail, "Composer.Hint"),
    ];
    if last {
        row + seq![
            piece("  "@, "Composer.Hint"),
            piece("^Y"@, "Composer.HintKey"),
            piece(" take back"@, "Composer.Hint"),
        ]
    } else {
        row
    }
}

/// What there is to draw around the composer.
pub struct Composer<'a> {
    pub ascii: bool,
    pub width: usize,
    /// How many lines what is typed takes.
    pub lines: usize,
    /// Nothing has been typed.
    pub empty: bool,
    /// The field is lent to something else: a search, or a key being entered.
    pub borrowed: bool,
    /// A turn is running in the conversation on screen.
    pub running: bool,
    /// What each attached image is called.
    pub attached: &'a Vec<String>,
    /// What has been typed while a turn was running, and not said yet.
    pub queued: &'a Vec<String>,
}

/// The rows above the composer: a blank one, the rule, what is attached and what is queued.
pub open spec fn rows_above(c: Composer) -> Seq<Trim> {
    let n = c.attached@.len() as int;
    let take = if c.queued@.len() < MOST_QUEUED {
        c.queued@.len() as int
    } else {
        MOST_QUEUED as int
    };
    let rule = if c.ascii {
        '-'
    } else {
        '\u{2500}'
    };
    seq![
        above(seq![piece(""@, "Composer.Rule")]),
        above(seq![piece(repeated(rule, c.width as nat), "Composer.Rule")]),
    ] + Seq::new(
        n as nat,
        |i: int| above(attached_row(c.attached@[i]@, i, n, c.ascii)),
    ) + Seq::new(
        take as nat,
        |i: int|
            above(
                queued_row(
                    c.queued@[i]@,
                    i,
                    take,
                    (c.queued@.len() - take) as nat,
                    c.width as nat,
                ),
            ),
    )
}

/// The prompt, spliced in at column zero.
pub open spec fn prompt(ascii: bool) -> Seq<char> {
    if ascii {
        "> "@
    } else {
        "\u{203a} "@
    }
}

/// The words in an empty field. While a turn is running, sending does something else, and an empty
/// field is the one place you are looking when you are about to.
pub open spec fn placeholder(running: bool) -> Seq<char> {
    if running {
        "Steer it \u{2014} taken in at the next gap"@
    } else {
        "Ask anything, or run a command"@
    }
}

/// The row under the field: what the keys do while reading, whatever else is said, and the
/// shortcuts otherwise, unless you are writing enough that they would cost a line.
pub open spec fn row_below(c: Composer, reading: Option<Seq<Piece>>, hints: Option<Seq<Piece>>) -> Seq<
    Trim,
> {
    let row = if c.lines > 0 {
        c.lines - 1
    } else {
        0
    };
    let lead = seq![piece("  "@, "Composer.Hint")];
    match reading {
        Some(keys) => seq![Trim { row, place: Place::Below, pieces: lead + keys }],
        None => match hints {
            Some(h) => if c.lines <= 2 {
                seq![Trim { row, place: Place::Below, pieces: lead + h }]
            } else {
                seq![]
            },
            None => seq![],
        },
    }
}

/// Everything around the composer. A field that is lent out says so itself, and gets what is above
/// it and nothing else.
pub open spec fn composer_chrome(
    c: Composer,
    reading: Option<Seq<Piece>>,
    hints: Option<Seq<Piece>>,
) -> Seq<Trim> {
    let a = rows_above(c);
    if c.borrowed {
        a
    } else {
        let b = a.push(
            Trim {
                row: 0,
                place: Place::Inline,
                pieces: seq![piece(prompt(c.ascii), "Composer.Prompt")],
            },
        );
        let d = if c.empty {
            b.push(
                Trim {
                    row: 0,
                    place: Place::Eol,
                    pieces: seq![piece(placeholder(c.running), "Composer.Placeholder")],
                },
            )
        } else {
            b
        };
        d + row_below(c, reading, hints)
    }
}

fn put(v: &mut Vec<Chrome>, row: usize, place: Place, chunks: Vec<Chunk>)
    ensures
        trims(final(v)@) == trims(old(v)@).push(
            Trim { row: row as int, place, pieces: pieces(chunks@) },
        ),
{
    let c = Chrome { row, place, chunks };
    let ghost one = c@;
    v.push(c);
    assert(trims(v@) =~= trims(old(v)@).push(one));
}

fn attached_chunks(label: &str, i: usize, n: usize, ascii: bool) -> (r: Vec<Chunk>)
    requires
        i < n,
    ensures
        pieces(r@) == attached_row(label@, i as int, n as int, ascii),
{
    let mut r: Vec<Chunk> = Vec::new();
    assert(pieces(r@) =~= seq![]);
    put_chunk(&mut r, "  ", "Composer.Hint");
    put_chunk(
        &mut r,
        if i == 0 {
            "attached "
        } else {
            "         "
        },
        "Status.Pending",
    );
    put_chunk(&mut r, label, "Composer.Hint");
    if i == n - 1 {
        put_chunk(&mut r, "  ", "Composer.Hint");
        put_chunk(
            &mut r,
            if ascii {
                "Bksp"
            } else {
                "\u{232b}"
            },
            "Composer.HintKey",
        );
        put_chunk(&mut r, " take off", "Composer.Hint");
    }
    assert(pieces(r@) =~= attached_row(label@, i as int, n as int, ascii));
    r
}

fn queued_chunks(text: &str, i: usize, take: usize, more: usize, width: usize) -> (r: Vec<Chunk>)
    requires
        i < take,
    ensures
        pieces(r@) == queued_row(text@, i as int, take as int, more as nat, width as nat),
{
    let last = i == take - 1;
    let mut tail = String::new();
    if last && more > 0 {
        tail.push_str("  (+");
        tail.push_str(decimal_of(more as u64).as_str());
        tail.push_str(" more)");
        assert(tail@ =~= more_queued(more as nat));
    }
    assert(tail@ =~= (if last {
        more_queued(more as nat)
    } else {
        seq![]
    }));
    let tail_chars = chars_of(tail.as_str());
    let taken: u128 = 9 + tail_chars.len() as u128 + display_width("^Y") as u128 + 2 + 10;
    let room: usize = if width as u128 >= taken {
        (width as u128 - taken) as usize
    } else {
        0
    };
    let cs = chars_of(text);
    let ls = lines(cs.as_slice());
    assert(slices(ls@).len() == ls@.len());
    let empty: Vec<char> = Vec::new();
    assert(empty@ =~= seq![]);
    let line = if ls.len() > 0 {
        assert(slices(ls@)[0] == ls@[0]@);
        trim(ls[0])
    } else {
        trim(empty.as_slice())
    };
    assert(line@ == first_line(text@));
    let kept = if line.len() <= room {
        line
    } else {
        slice_subrange(line, 0, room)
    };
    proof {
        if line@.len() > room {
            assert(kept@ =~= line@.take(room as int));
        }
    }
    let mut body = string_of(kept);
    body.push_str(tail.as_str());
    let mut r: Vec<Chunk> = Vec::new();
    assert(pieces(r@) =~= seq![]);
    put_chunk(&mut r, "  ", "Composer.Hint");
    put_chunk(
        &mut r,
        if i == 0 {
            "queued "
        } else {
            "       "
        },
        "Status.Pending",
    );
    put_chunk(&mut r, body.as_str(), "Composer.Hint");
    if last {
        put_chunk(&mut r, "  ", "Composer.Hint");
        put_chunk(&mut r, "^Y", "Composer.HintKey");
        put_chunk(&mut r, " take back", "Composer.Hint");
    }
    assert(pieces(r@) =~= queued_row(text@, i as int, take as int, more as nat, width as nat));
    r
}

/// Redraw the chrome around the composer. `reading` is the row of keys where the transcript is being
/// read, and `hints` the row of shortcuts where there is one.
pub fn refresh_composer(c: &Composer, reading: Option<Vec<Chunk>>, hints: Option<Vec<Chunk>>) -> (r:
    Vec<Chrome>)
    ensures
        trims(r@) == composer_chrome(
            *c,
            match reading {
                Some(k) => Some(pieces(k@)),
                None => None,
            },
            match hints {
                Some(h) => Some(pieces(h@)),
                None => None,
            },
        ),
{
    let mut r: Vec<Chrome> = Vec::new();
    assert(trims(r@) =~= seq![]);
    // The blank is not decoration. Without it the last line of an answer sits directly on the rule,
    // and the eye reads the two as one block.
    let mut blank: Vec<Chunk> = Vec::new();
    assert(pieces(blank@) =~= seq![]);
    put_chunk(&mut blank, "", "Composer.Rule");
    assert(pieces(blank@) =~= seq![piece(""@, "Composer.Rule")]);
    put(&mut r, 0, Place::Above, blank);
    let mut rule = String::new();
    push_repeated(
        &mut rule,
        if c.ascii {
            '-'
        } else {
            '\u{2500}'
        },
        c.width,
    );
    let ghost line = repeated(
        if c.ascii {
            '-'
        } else {
            '\u{2500}'
        },
        c.width as nat,
    );
    assert(rule@ =~= line);
    let mut ruled: Vec<Chunk> = Vec::new();
    assert(pieces(ruled@) =~= seq![]);
    put_chunk(&mut ruled, rule.as_str(), "Composer.Rule");
    assert(pieces(ruled@) =~= seq![piece(line, "Composer.Rule")]);
    put(&mut r, 0, Place::Above, ruled);
    let ghost head = trims(r@);
    assert(head =~= seq![
        above(seq![piece(""@, "Composer.Rule")]),
        above(seq![piece(line, "Composer.Rule")]),
    ]);

    let n = c.attached.len();
    let ghost att = Seq::new(
        n as nat,
        |i: int| above(attached_row(c.attached@[i]@, i, n as int, c.ascii)),
    );
    let mut i: usize = 0;
    assert(trims(r@) =~= head + att.take(0));
    while i < n
        invariant
            i <= n,
            n == c.attached@.len(),
            att == Seq::new(
                n as nat,
                |i: int| above(attached_row(c.attached@[i]@, i, n as int, c.ascii)),
            ),
            trims(r@) == head + att.take(i as int),
        decreases n - i,
    {
        let ghost was = trims(r@);
        let v = attached_chunks(c.attached[i].as_str(), i, n, c.ascii);
        put(&mut r, 0, Place::Above, v);
        assert(trims(r@) =~= was.push(att[i as int]));
        assert(head + att.take(i + 1) =~= was.push(att[i as int]));
        i = i + 1;
    }
    assert(att.take(n as int) =~= att);

    let total = c.queued.len();
    let take = if total < MOST_QUEUED {
        total
    } else {
        MOST_QUEUED
    };
    let more = total - take;
    let ghost que = Seq::new(
        take as nat,
        |i: int| above(queued_row(c.queued@[i]@, i, take as int, more as nat, c.width as nat)),
    );
    let mut i: usize = 0;
    assert(trims(r@) =~= head + att + que.take(0));
    while i < take
        invariant
            i <= take,
            take <= c.queued@.len(),
            que == Seq::new(
                take as nat,
                |i: int|
                    above(queued_row(c.queued@[i]@, i, take as int, more as nat, c.width as nat)),
            ),
            trims(r@) == head + att + que.take(i as int),
        decreases take - i,
    {
        let ghost was = trims(r@);
        let v = queued_chunks(c.queued[i].as_str(), i, take, more, c.width);
        put(&mut r, 0, Place::Above, v);
        assert(trims(r@) =~= was.push(que[i as int]));
        assert(head + att + que.take(i + 1) =~= was.push(que[i as int]));
        i = i + 1;
    }
    assert(que.take(take as int) =~= que);
    assert(trims(r@) =~= rows_above(*c));
    // The rule stays because it is the layout: dropping it would move every row of the transcript
    // at the moment you least want the screen to jump.
    if c.borrowed {
        return r;
    }
    let mut caret: Vec<Chunk> = Vec::new();
    assert(pieces(caret@) =~= seq![]);
    put_chunk(
        &mut caret,
        if c.ascii {
            "> "
        } else {
            "\u{203a} "
        },
        "Composer.Prompt",
    );
    assert(pieces(caret@) =~= seq![piece(prompt(c.ascii), "Composer.Prompt")]);
    put(&mut r, 0, Place::Inline, caret);
    if c.empty {
        let mut words: Vec<Chunk> = Vec::new();
        assert(pieces(words@) =~= seq![]);
        put_chunk(
            &mut words,
            if c.running {
                "Steer it \u{2014} taken in at the next gap"
            } else {
                "Ask anything, or run a command"
            },
            "Composer.Placeholder",
        );
        assert(pieces(words@) =~= seq![piece(placeholder(c.running), "Composer.Placeholder")]);
        put(&mut r, 0, Place::Eol, words);
    }
    let row = if c.lines > 0 {
        c.lines - 1
    } else {
        0
    };
    let ghost so_far = trims(r@);
    let under: Option<Vec<Chunk>> = match reading {
        Some(k) => Some(k),
        None => if c.lines <= 2 {
            hints
        } else {
            None
        },
    };
    if let Some(u) = under {
        let mut u = u;
        let ghost said = pieces(u@);
        let mut v: Vec<Chunk> = Vec::new();
        assert(pieces(v@) =~= seq![]);
        put_chunk(&mut v, "  ", "Composer.Hint");
        let ghost lead = pieces(v@);
        v.append(&mut u);
        assert(pieces(v@) =~= lead + said);
        assert(lead =~= seq![piece("  "@, "Composer.Hint")]);
        put(&mut r, row, Place::Below, v);
        assert(trims(r@) =~= so_far + seq![Trim {
            row: row as int,
            place: Place::Below,
            pieces: lead + said,
        }]);
    } else {
        assert(trims(r@) =~= so_far + Seq::<Trim>::empty());
    }
    r
}

/// Whether what is in the composer has become another draft. Not while the field is lent to
/// something else: what is in it then is not the draft.
pub fn draft_changed(draft: &str, text: &str, borrowed: bool) -> (r: bool)
    ensures
        r == (draft@ != text@ && !borrowed),
{
    !borrowed && !crate::text::same_text(draft, text)
}

} // verus!
