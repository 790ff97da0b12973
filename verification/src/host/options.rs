//! The settings the workspace itself understands.
//!
//! What configuration can change is written down in one place, with the value each has when nobody
//! says otherwise. A plugin declares its own in the same way.

use crate::host::commands::BUILTIN;
use crate::paths::default_worktree_root;
use crate::text::{chars_of, split_on, texts};
use crate::words::split;
use vstd::prelude::*;

verus! {

/// What a setting can hold.
#[derive(Debug, Clone, Copy, PartialEq, Eq, Structural)]
pub enum Shape {
    Text,
    /// A switch that is on when nobody has said.
    On,
    /// A switch that is off when nobody has said.
    Off,
    Number,
    /// Some names.
    Names,
    /// One of some names: the first, when nobody has said.
    Choice,
    /// Text, and the folder new worktrees go in.
    WorktreeRoot,
}

/// What kind of value an option takes.
#[derive(Debug)]
pub enum OptionType {
    Str,
    Bool,
    Int(Option<i64>, Option<i64>),
    List,
    Enum(Vec<String>),
}

/// The value of an option.
#[derive(Debug)]
pub enum OptionValue {
    Str(String),
    Bool(bool),
    Int(i64),
    List(Vec<String>),
}

/// An option as it is declared, and the plugin that declares it.
#[derive(Debug)]
pub struct OptionSpec {
    pub owner: String,
    pub name: String,
    pub ty: OptionType,
    pub default: OptionValue,
    pub description: String,
}

/// A setting: its name, what it can hold, the text or the names it starts from (with a space
/// between each), the least, the most and the first value of a number, and what it is for.
pub type Setting = (&'static str, Shape, &'static str, (i64, i64, i64), &'static str);

/// Every setting.
pub const OPTIONS: [Setting; 34] = [
    (
        "agent.model",
        Shape::Text,
        "",
        (0, 0, 0),
        "Model to use, as `instance/model`. Empty picks the first one that works.",
    ),
    (
        "agent.system_prompt",
        Shape::Text,
        "",
        (0, 0, 0),
        "Replaces the built-in system prompt when set.",
    ),
    (
        "chat.markdown",
        Shape::On,
        "",
        (0, 0, 0),
        "Render answers as markdown: headings, lists, code blocks, and inline emphasis with its markers removed. Off shows exactly what the model sent.",
    ),
    (
        "chat.show_thinking",
        Shape::Off,
        "",
        (0, 0, 0),
        "Stream the model's reasoning into the chat buffer.",
    ),
    (
        "chat.show_tools",
        Shape::On,
        "",
        (0, 0, 0),
        "Show a line in chat when a tool runs. Errors always show.",
    ),
    (
        "chat.show_plan",
        Shape::On,
        "",
        (0, 0, 0),
        "Show the agent's own checklist above the working line while it works, and leave the final one under its answer. Only drivers that keep a plan have one.",
    ),
    (
        "chat.plan_rows",
        Shape::Number,
        "",
        (0, 50, 5),
        "How many rows the checklist may take above the working line. Past it, what is finished and what is not started yet each become a count and the step in hand stays. `0` shows every step. The copy left under the answer is always whole.",
    ),
    (
        "chat.tool_output_lines",
        Shape::Number,
        "",
        (0, 200, 3),
        "How much of what a tool came back with to show under it. `0` shows only how many lines there were. An error always shows at least its first line.",
    ),
    (
        "chat.diff_lines",
        Shape::Number,
        "",
        (0, 500, 12),
        "How many rows of an edit's diff to show under its card before it folds. `0` leaves only the +N -N on the header. Any card opens with Tab while reading.",
    ),
    (
        "mapleader",
        Shape::Text,
        "\\",
        (0, 0, 0),
        "What `<leader>` means in a key binding. Read when the binding is made, as in Neovim \u{2014} set it in `init.ts` before you use it.",
    ),
    (
        "timeoutlen",
        Shape::Number,
        "",
        (0, 10_000, 500),
        "Milliseconds to wait for the rest of a multi-key binding before giving up and treating what was typed as ordinary input. Without this, binding a sequence whose first key is a printable character makes that character untypeable.",
    ),
    (
        "ui.keys.next",
        Shape::Text,
        "<C-n> <Down> <C-j>",
        (0, 0, 0),
        "Move down in a picker or completion list.",
    ),
    (
        "ui.keys.prev",
        Shape::Text,
        "<C-p> <Up> <C-k>",
        (0, 0, 0),
        "Move up in a picker or completion list.",
    ),
    (
        "ui.keys.page_down",
        Shape::Text,
        "<PageDown>",
        (0, 0, 0),
        "Move down a screenful in a picker. Deliberately not `<C-d>` by default: a widget claims its keys while it is open, and taking a chord you use elsewhere for something you do rarely is a bad trade you only notice later.",
    ),
    (
        "ui.keys.page_up",
        Shape::Text,
        "<PageUp>",
        (0, 0, 0),
        "Move up a screenful in a picker.",
    ),
    (
        "ui.keys.first",
        Shape::Text,
        "<C-Home>",
        (0, 0, 0),
        "Jump to the first row of a picker.",
    ),
    (
        "ui.keys.last",
        Shape::Text,
        "<C-End>",
        (0, 0, 0),
        "Jump to the last row of a picker.",
    ),
    (
        "ui.keys.accept",
        Shape::Text,
        "<CR>",
        (0, 0, 0),
        "Take the highlighted row, or what you typed.",
    ),
    (
        "ui.keys.dismiss",
        Shape::Text,
        "<Esc> <C-c>",
        (0, 0, 0),
        "Close a picker or prompt without choosing.",
    ),
    (
        "ui.keys.complete",
        Shape::Text,
        "<Tab> <Right>",
        (0, 0, 0),
        "Take the highlighted completion into the field without accepting it \u{2014} how you descend a directory a segment at a time.",
    ),
    (
        "ui.keys.clear",
        Shape::Text,
        "<C-u>",
        (0, 0, 0),
        "Empty the filter or field. `<C-u>` because that is what it does in every other text field a terminal has ever shown you.",
    ),
    (
        "ui.keys.delete_word",
        Shape::Text,
        "<C-w>",
        (0, 0, 0),
        "Delete the word behind the cursor \u{2014} a path segment, in a path field.",
    ),
    (
        "ui.keys.pane_next",
        Shape::Text,
        "<Tab> <Right>",
        (0, 0, 0),
        "Move to the next pane of a two-pane widget \u{2014} from the provider rail to the models beside it. Shares `<Tab>` with `complete`, which is safe because no widget has both: a rail has nothing to complete and a path field has no rail.",
    ),
    (
        "ui.keys.pane_prev",
        Shape::Text,
        "<S-Tab> <Left>",
        (0, 0, 0),
        "Move back a pane in a two-pane widget.",
    ),
    (
        "worktree.root",
        Shape::WorktreeRoot,
        "",
        (0, 0, 0),
        "Where `git.worktree.new` puts a new worktree, as `<root>/<repo>/<branch>`. A leading `~` is expanded. A relative path is inside the repository itself \u{2014} `.worktrees` puts them at `<repo>/.worktrees/<branch>`, kept out of `git status` for you. Empty means beside the repository instead, in `<repo>-worktrees/`.",
    ),
    (
        "ui.hints",
        Shape::Off,
        "",
        (0, 0, 0),
        "Show a shortcut row under the composer. Off by default: the sidebar's footer carries the same keys and `^Z` carries all of them, so the row mostly cost the transcript a line.",
    ),
    (
        "ui.modal_escape_keys",
        Shape::Names,
        "<C-q> <C-r>",
        (0, 0, 0),
        "Keys that still reach the workspace while a modal panel is open. Quit and reload by default, so a panel that fails to bind a way out is never a terminal you have to kill.",
    ),
    (
        "ui.ascii_only",
        Shape::Off,
        "",
        (0, 0, 0),
        "Use ASCII for glyphs, spinners and provider marks, for terminals without a decent font.",
    ),
    (
        "ui.motion",
        Shape::On,
        "",
        (0, 0, 0),
        "Animate spinners and status pulses. Measured at ~1% of one core and under 1 KiB/s, so this is on even over SSH; turn it off if you prefer a still screen.",
    ),
    (
        "ui.nerd_font",
        Shape::Off,
        "",
        (0, 0, 0),
        "Use Nerd Font glyphs where there is one \u{2014} provider logos, chiefly. Off by default and not detected: a terminal cannot be asked what its font contains, and guessing wrong draws a row of boxes, which reads as a broken program rather than as a missing font.",
    ),
    (
        "ui.confirm_destructive",
        Shape::On,
        "",
        (0, 0, 0),
        "Ask before anything that cannot be undone \u{2014} deleting a conversation, removing a worktree. Turn it off once the keys are in your fingers; nothing that only changes what is on screen asks in the first place.",
    ),
    (
        "ui.theme",
        Shape::Choice,
        "dark light",
        (0, 0, 0),
        "Colour theme. Not auto-detected: no terminal reliably reports whether its background is light or dark, and guessing is wrong half the time.",
    ),
    (
        "plugins.disabled",
        Shape::Names,
        "",
        (0, 0, 0),
        "Names of bundled plugins not to load, e.g. [\"sidebar\"]. Yours is not a bundled plugin; remove it from the plugin directory instead.",
    ),
    (
        "gen.model",
        Shape::Text,
        "",
        (0, 0, 0),
        "Model for one-shot generation \u{2014} branch names, commit messages, titles \u{2014} as                      `instance/model`. Empty uses the conversation's model. Point it at something                      cheap; naming a branch does not need a frontier model.",
    ),
];

/// The names written with a space between each.
pub open spec fn names_in(s: Seq<char>) -> Seq<Seq<char>> {
    if s.len() == 0 {
        seq![]
    } else {
        split_on(s, ' ')
    }
}

fn names(s: &str) -> (r: Vec<String>)
    ensures
        texts(r@) == names_in(s@),
{
    let cs = chars_of(s);
    if cs.len() == 0 {
        let r: Vec<String> = Vec::new();
        assert(texts(r@) =~= seq![]);
        return r;
    }
    split(cs.as_slice(), ' ')
}

/// Whether an option is declared with the shape of a setting.
pub open spec fn shaped(ty: OptionType, default: OptionValue, row: Setting, root: Seq<char>) -> bool {
    let s = row.2@;
    match row.1 {
        Shape::Text => ty is Str && default is Str && default->Str_0@ == s,
        Shape::On => ty is Bool && default == OptionValue::Bool(true),
        Shape::Off => ty is Bool && default == OptionValue::Bool(false),
        Shape::Number => {
            let (low, high, n) = row.3;
            ty == OptionType::Int(Some(low), Some(high)) && default == OptionValue::Int(n)
        },
        Shape::Names => ty is List && default is List && texts(default->List_0@) == names_in(s),
        Shape::Choice => ty is Enum && texts(ty->Enum_0@) == names_in(s) && default is Str
            && names_in(s).len() > 0 && default->Str_0@ == names_in(s)[0],
        Shape::WorktreeRoot => ty is Str && default is Str && default->Str_0@ == root,
    }
}

/// Where a new worktree goes when nobody has said.
pub open spec fn worktrees(home: Option<&str>) -> Seq<char> {
    if home is Some && home->0@.len() > 0 {
        home->0@ + "/.nsh"@
    } else {
        ".nsh"@
    }
}

fn declared(row: Setting, home: Option<&str>) -> (r: OptionSpec)
    requires
        row.1 is Choice ==> names_in(row.2@).len() > 0,
    ensures
        r.owner@ == BUILTIN@,
        r.name@ == row.0@,
        r.description@ == row.4@,
        shaped(r.ty, r.default, row, worktrees(home)),
{
    let (name, shape, text, range, description) = row;
    let (ty, default) = match shape {
        Shape::Text => (OptionType::Str, OptionValue::Str(text.to_owned())),
        Shape::On => (OptionType::Bool, OptionValue::Bool(true)),
        Shape::Off => (OptionType::Bool, OptionValue::Bool(false)),
        Shape::Number => {
            let (low, high, n) = range;
            (OptionType::Int(Some(low), Some(high)), OptionValue::Int(n))
        },
        Shape::Names => (OptionType::List, OptionValue::List(names(text))),
        Shape::Choice => {
            let all = names(text);
            assert(texts(all@)[0] == all@[0]@);
            let first = all[0].clone();
            (OptionType::Enum(all), OptionValue::Str(first))
        },
        Shape::WorktreeRoot => (OptionType::Str, OptionValue::Str(default_worktree_root(home))),
    };
    OptionSpec {
        owner: BUILTIN.to_owned(),
        name: name.to_owned(),
        ty,
        default,
        description: description.to_owned(),
    }
}

proof fn lemma_choices(i: int)
    requires
        0 <= i < 34,
        OPTIONS@[i].1 is Choice,
    ensures
        names_in(OPTIONS@[i].2@).len() > 0,
{
    reveal_strlit("dark light");
    assert(split_on("dark light"@, ' ').len() > 0);
}

/// Every setting, declared. They are all made from the one table, and the workspace owns them as a
/// plugin owns its own.
pub fn declare_builtin_options(home: Option<&str>) -> (r: Vec<OptionSpec>)
    ensures
        r@.len() == 34,
        forall|i: int|
            0 <= i < 34 ==> {
                &&& (#[trigger] r@[i]).name@ == OPTIONS@[i].0@
                &&& r@[i].owner@ == BUILTIN@
                &&& shaped(r@[i].ty, r@[i].default, OPTIONS@[i], worktrees(home))
                &&& r@[i].description@ == OPTIONS@[i].4@
            },
{
    let mut r: Vec<OptionSpec> = Vec::new();
    let mut i: usize = 0;
    while i < 34
        invariant
            i <= 34,
            r@.len() == i,
            forall|j: int|
                0 <= j < i ==> {
                    &&& (#[trigger] r@[j]).name@ == OPTIONS@[j].0@
                    &&& r@[j].owner@ == BUILTIN@
                    &&& shaped(r@[j].ty, r@[j].default, OPTIONS@[j], worktrees(home))
                    &&& r@[j].description@ == OPTIONS@[j].4@
                },
        decreases 34 - i,
    {
        let row = OPTIONS[i];
        proof {
            if row.1 is Choice {
                lemma_choices(i as int);
            }
        }
        r.push(declared(row, home));
        i = i + 1;
    }
    r
}

/// Whether an option takes a value.
pub open spec fn takes(ty: OptionType, value: OptionValue) -> bool {
    match ty {
        OptionType::Str => value is Str,
        OptionType::Bool => value is Bool,
        OptionType::Int(low, high) => value is Int && (low is Some ==> low->0 <= value->Int_0) && (
        high is Some ==> value->Int_0 <= high->0),
        OptionType::List => value is List,
        OptionType::Enum(values) => value is Str && texts(values@).contains(value->Str_0@),
    }
}

/// What a setting holds when nobody has said is a value that it takes.
pub proof fn every_default_is_allowed(ty: OptionType, default: OptionValue, i: int, root: Seq<char>)
    requires
        0 <= i < 34,
        shaped(ty, default, OPTIONS@[i], root),
    ensures
        takes(ty, default),
{
    if let OptionType::Enum(values) = ty {
        assert(texts(values@)[0] == default->Str_0@);
    }
}

/// The length of a name and the fourth character from its end, as one number.
spec fn marker(name: Seq<char>) -> int {
    name.len() * 1000 + name[name.len() - 4] as u32
}

/// Which setting has a name of that length, with that character in it.
spec fn numbered(m: int) -> int {
    if m == 11111 {
        0
    } else if m == 19111 {
        1
    } else if m == 13100 {
        2
    } else if m == 18107 {
        3
    } else if m == 15111 {
        4
    } else if m == 14112 {
        5
    } else if m == 14114 {
        6
    } else if m == 22105 {
        7
    } else if m == 15105 {
        8
    } else if m == 9097 {
        9
    } else if m == 10116 {
        10
    } else if m == 12110 {
        11
    } else if m == 12112 {
        12
    } else if m == 17100 {
        13
    } else if m == 15101 {
        14
    } else if m == 13105 {
        15
    } else if m == 12108 {
        16
    } else if m == 14099 {
        17
    } else if m == 15109 {
        18
    } else if m == 16108 {
        19
    } else if m == 13108 {
        20
    } else if m == 19119 {
        21
    } else if m == 17110 {
        22
    } else if m == 17112 {
        23
    } else if m == 13114 {
        24
    } else if m == 8105 {
        25
    } else if m == 20107 {
        26
    } else if m == 13111 {
        27
    } else if m == 9116 {
        28
    } else if m == 12102 {
        29
    } else if m == 22116 {
        30
    } else if m == 8104 {
        31
    } else if m == 16098 {
        32
    } else if m == 9111 {
        33
    } else {
        -1
    }
}

proof fn lemma_numbered_first(i: int)
    requires
        0 <= i < 12,
    ensures
        numbered(marker(OPTIONS@[i].0@)) == i,
{
    if i == 0 {
        reveal_strlit("agent.model");
        assert(marker("agent.model"@) == 11111);
    }
    if i == 1 {
        reveal_strlit("agent.system_prompt");
        assert(marker("agent.system_prompt"@) == 19111);
    }
    if i == 2 {
        reveal_strlit("chat.markdown");
        assert(marker("chat.markdown"@) == 13100);
    }
    if i == 3 {
        reveal_strlit("chat.show_thinking");
        assert(marker("chat.show_thinking"@) == 18107);
    }
    if i == 4 {
        reveal_strlit("chat.show_tools");
        assert(marker("chat.show_tools"@) == 15111);
    }
    if i == 5 {
        reveal_strlit("chat.show_plan");
        assert(marker("chat.show_plan"@) == 14112);
    }
    if i == 6 {
        reveal_strlit("chat.plan_rows");
        assert(marker("chat.plan_rows"@) == 14114);
    }
    if i == 7 {
        reveal_strlit("chat.tool_output_lines");
        assert(marker("chat.tool_output_lines"@) == 22105);
    }
    if i == 8 {
        reveal_strlit("chat.diff_lines");
        assert(marker("chat.diff_lines"@) == 15105);
    }
    if i == 9 {
        reveal_strlit("mapleader");
        assert(marker("mapleader"@) == 9097);
    }
    if i == 10 {
        reveal_strlit("timeoutlen");
        assert(marker("timeoutlen"@) == 10116);
    }
    if i == 11 {
        reveal_strlit("ui.keys.next");
        assert(marker("ui.keys.next"@) == 12110);
    }
}

proof fn lemma_numbered_middle(i: int)
    requires
        12 <= i < 23,
    ensures
        numbered(marker(OPTIONS@[i].0@)) == i,
{
    if i == 12 {
        reveal_strlit("ui.keys.prev");
        assert(marker("ui.keys.prev"@) == 12112);
    }
    if i == 13 {
        reveal_strlit("ui.keys.page_down");
        assert(marker("ui.keys.page_down"@) == 17100);
    }
    if i == 14 {
        reveal_strlit("ui.keys.page_up");
        assert(marker("ui.keys.page_up"@) == 15101);
    }
    if i == 15 {
        reveal_strlit("ui.keys.first");
        assert(marker("ui.keys.first"@) == 13105);
    }
    if i == 16 {
        reveal_strlit("ui.keys.last");
        assert(marker("ui.keys.last"@) == 12108);
    }
    if i == 17 {
        reveal_strlit("ui.keys.accept");
        assert(marker("ui.keys.accept"@) == 14099);
    }
    if i == 18 {
        reveal_strlit("ui.keys.dismiss");
        assert(marker("ui.keys.dismiss"@) == 15109);
    }
    if i == 19 {
        reveal_strlit("ui.keys.complete");
        assert(marker("ui.keys.complete"@) == 16108);
    }
    if i == 20 {
        reveal_strlit("ui.keys.clear");
        assert(marker("ui.keys.clear"@) == 13108);
    }
    if i == 21 {
        reveal_strlit("ui.keys.delete_word");
        assert(marker("ui.keys.delete_word"@) == 19119);
    }
    if i == 22 {
        reveal_strlit("ui.keys.pane_next");
        assert(marker("ui.keys.pane_next"@) == 17110);
    }
}

proof fn lemma_numbered_last(i: int)
    requires
        23 <= i < 34,
    ensures
        numbered(marker(OPTIONS@[i].0@)) == i,
{
    if i == 23 {
        reveal_strlit("ui.keys.pane_prev");
        assert(marker("ui.keys.pane_prev"@) == 17112);
    }
    if i == 24 {
        reveal_strlit("worktree.root");
        assert(marker("worktree.root"@) == 13114);
    }
    if i == 25 {
        reveal_strlit("ui.hints");
        assert(marker("ui.hints"@) == 8105);
    }
    if i == 26 {
        reveal_strlit("ui.modal_escape_keys");
        assert(marker("ui.modal_escape_keys"@) == 20107);
    }
    if i == 27 {
        reveal_strlit("ui.ascii_only");
        assert(marker("ui.ascii_only"@) == 13111);
    }
    if i == 28 {
        reveal_strlit("ui.motion");
        assert(marker("ui.motion"@) == 9116);
    }
    if i == 29 {
        reveal_strlit("ui.nerd_font");
        assert(marker("ui.nerd_font"@) == 12102);
    }
    if i == 30 {
        reveal_strlit("ui.confirm_destructive");
        assert(marker("ui.confirm_destructive"@) == 22116);
    }
    if i == 31 {
        reveal_strlit("ui.theme");
        assert(marker("ui.theme"@) == 8104);
    }
    if i == 32 {
        reveal_strlit("plugins.disabled");
        assert(marker("plugins.disabled"@) == 16098);
    }
    if i == 33 {
        reveal_strlit("gen.model");
        assert(marker("gen.model"@) == 9111);
    }
}

proof fn lemma_numbered(i: int)
    requires
        0 <= i < 34,
    ensures
        numbered(marker(OPTIONS@[i].0@)) == i,
{
    if i < 12 {
        lemma_numbered_first(i);
    } else if i < 23 {
        lemma_numbered_middle(i);
    } else {
        lemma_numbered_last(i);
    }
}

/// No two settings share a name, so declaring one never fails because of another.
pub proof fn no_two_settings_share_a_name(i: int, j: int)
    requires
        0 <= i < 34,
        0 <= j < 34,
        OPTIONS@[i].0@ == OPTIONS@[j].0@,
    ensures
        i == j,
{
    lemma_numbered(i);
    lemma_numbered(j);
}

} // verus!
