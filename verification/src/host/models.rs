//! Which model answers, and the settings the workspace itself acts on.

use crate::host::calls::{quoted, quoted_of};
use crate::host::options::OptionValue;
use crate::host::startup::Startup;
use crate::notify::MessageLevel;
use crate::paths::expand_tilde;
use crate::text::{chars_of, same_text};
use crate::words::concat;
use vstd::prelude::*;

verus! {

/// A model of a provider.
#[derive(Debug)]
pub struct Model {
    pub id: String,
    /// The product line it belongs to.
    pub family: Option<String>,
    pub legacy: bool,
    /// How big it is among its own, and nothing where that is not known.
    pub tier: Option<u32>,
}

/// A provider that is configured.
#[derive(Debug)]
pub struct Instance {
    pub id: String,
    pub models: Vec<Model>,
    /// It can be used as it is.
    pub ready: bool,
    /// A turn sent to it could authenticate.
    pub usable: bool,
}

/// A model, and who serves it.
#[derive(Debug)]
pub struct Selection {
    pub instance: String,
    pub model: String,
}

/// How big a model is among its own.
pub open spec fn rank_of(m: Model) -> u32 {
    match m.tier {
        Some(t) => t,
        None => 0,
    }
}

/// Whether a model is one of a product line that is still offered.
pub open spec fn of_line(m: Model, family: Seq<char>) -> bool {
    m.family is Some && m.family->0@ == family && !m.legacy
}

/// The biggest of some models in a product line: the last of those that are equally big.
pub open spec fn biggest(models: Seq<Model>, family: Seq<char>) -> Option<int>
    decreases models.len(),
{
    if models.len() == 0 {
        None
    } else {
        let best = biggest(models.drop_last(), family);
        let n = models.len() - 1;
        if !of_line(models[n], family) {
            best
        } else {
            match best {
                Some(b) => if rank_of(models[b]) > rank_of(models[n]) {
                    Some(b)
                } else {
                    Some(n)
                },
                None => Some(n),
            }
        }
    }
}

fn is_of_line(m: &Model, family: &str) -> (r: bool)
    ensures
        r == of_line(*m, family@),
{
    match &m.family {
        Some(f) => same_text(f.as_str(), family) && !m.legacy,
        None => false,
    }
}

fn tier_of(m: &Model) -> (r: u32)
    ensures
        r == rank_of(*m),
{
    match m.tier {
        Some(t) => t,
        None => 0,
    }
}

fn find_biggest(models: &Vec<Model>, family: &str) -> (r: Option<usize>)
    ensures
        match r {
            Some(i) => i < models@.len() && biggest(models@, family@) == Some(i as int),
            None => biggest(models@, family@) is None,
        },
{
    let mut best: Option<usize> = None;
    let mut i: usize = 0;
    while i < models.len()
        invariant
            i <= models@.len(),
            match best {
                Some(b) => b < i && biggest(models@.take(i as int), family@) == Some(b as int),
                None => biggest(models@.take(i as int), family@) is None,
            },
        decreases models@.len() - i,
    {
        proof {
            assert(models@.take(i + 1).drop_last() =~= models@.take(i as int));
            assert(models@.take(i + 1)[i as int] == models@[i as int]);
            if best is Some {
                assert(models@.take(i + 1)[best->0 as int] == models@[best->0 as int]);
            }
        }
        if is_of_line(&models[i], family) {
            best = match best {
                Some(b) => if tier_of(&models[b]) > tier_of(&models[i]) {
                    Some(b)
                } else {
                    Some(i)
                },
                None => Some(i),
            };
        }
        i = i + 1;
    }
    assert(models@.take(i as int) =~= models@);
    best
}

/// The first provider that is ready and has a model of a product line, and its biggest.
pub open spec fn same_line(v: Seq<Instance>, family: Seq<char>) -> Option<(int, int)>
    decreases v.len(),
{
    if v.len() == 0 {
        None
    } else {
        match same_line(v.drop_last(), family) {
            Some(x) => Some(x),
            None => match biggest(v.last().models@, family) {
                Some(m) => if v.last().ready {
                    Some((v.len() - 1, m))
                } else {
                    None
                },
                None => None,
            },
        }
    }
}

proof fn lemma_same_line(v: Seq<Instance>, family: Seq<char>, n: int)
    requires
        0 <= n <= v.len(),
        same_line(v.take(n), family) is Some,
    ensures
        same_line(v, family) == same_line(v.take(n), family),
    decreases v.len(),
{
    if n == v.len() {
        assert(v.take(n) =~= v);
    } else {
        assert(v.drop_last().take(n) =~= v.take(n));
        lemma_same_line(v.drop_last(), family, n);
    }
}

fn find_line(v: &Vec<Instance>, family: &str) -> (r: Option<(usize, usize)>)
    ensures
        match r {
            Some((i, m)) => i < v@.len() && m < v@[i as int].models@.len() && same_line(v@, family@)
                == Some((i as int, m as int)),
            None => same_line(v@, family@) is None,
        },
{
    let mut i: usize = 0;
    while i < v.len()
        invariant
            i <= v@.len(),
            same_line(v@.take(i as int), family@) is None,
        decreases v@.len() - i,
    {
        proof {
            assert(v@.take(i + 1).drop_last() =~= v@.take(i as int));
            assert(v@.take(i + 1).last() == v@[i as int]);
        }
        if v[i].ready {
            if let Some(m) = find_biggest(&v[i].models, family) {
                proof {
                    lemma_same_line(v@, family@, i + 1);
                }
                return Some((i, m));
            }
        }
        i = i + 1;
    }
    assert(v@.take(i as int) =~= v@);
    None
}

/// Which provider has a name: the first.
pub open spec fn instance_named(v: Seq<Instance>, id: Seq<char>) -> Option<int>
    decreases v.len(),
{
    if v.len() == 0 {
        None
    } else if v[0].id@ == id {
        Some(0)
    } else {
        match instance_named(v.skip(1), id) {
            Some(i) => Some(i + 1),
            None => None,
        }
    }
}

/// Which model has a name: the first.
pub open spec fn model_named(v: Seq<Model>, id: Seq<char>) -> Option<int>
    decreases v.len(),
{
    if v.len() == 0 {
        None
    } else if v[0].id@ == id {
        Some(0)
    } else {
        match model_named(v.skip(1), id) {
            Some(i) => Some(i + 1),
            None => None,
        }
    }
}

fn find_instance(v: &Vec<Instance>, id: &str) -> (r: Option<usize>)
    ensures
        match r {
            Some(i) => i < v@.len() && instance_named(v@, id@) == Some(i as int),
            None => instance_named(v@, id@) is None,
        },
{
    let mut i: usize = v.len();
    let mut found: Option<usize> = None;
    assert(v@.skip(i as int) =~= seq![]);
    while i > 0
        invariant
            i <= v@.len(),
            match found {
                Some(f) => i <= f < v@.len() && instance_named(v@.skip(i as int), id@) == Some(
                    f - i,
                ),
                None => instance_named(v@.skip(i as int), id@) is None,
            },
        decreases i,
    {
        assert(v@.skip(i - 1).skip(1) =~= v@.skip(i as int));
        assert(v@.skip(i - 1)[0] == v@[i - 1]);
        if same_text(v[i - 1].id.as_str(), id) {
            found = Some(i - 1);
        }
        i = i - 1;
    }
    assert(v@.skip(0) =~= v@);
    found
}

fn find_model(v: &Vec<Model>, id: &str) -> (r: Option<usize>)
    ensures
        match r {
            Some(i) => i < v@.len() && model_named(v@, id@) == Some(i as int),
            None => model_named(v@, id@) is None,
        },
{
    let mut i: usize = v.len();
    let mut found: Option<usize> = None;
    assert(v@.skip(i as int) =~= seq![]);
    while i > 0
        invariant
            i <= v@.len(),
            match found {
                Some(f) => i <= f < v@.len() && model_named(v@.skip(i as int), id@) == Some(f - i),
                None => model_named(v@.skip(i as int), id@) is None,
            },
        decreases i,
    {
        assert(v@.skip(i - 1).skip(1) =~= v@.skip(i as int));
        assert(v@.skip(i - 1)[0] == v@[i - 1]);
        if same_text(v[i - 1].id.as_str(), id) {
            found = Some(i - 1);
        }
        i = i - 1;
    }
    assert(v@.skip(0) =~= v@);
    found
}

/// The product line of a model.
pub open spec fn family_of(v: Seq<Instance>, s: Selection) -> Option<Seq<char>> {
    match instance_named(v, s.instance@) {
        None => None,
        Some(i) => match model_named(v[i].models@, s.model@) {
            None => None,
            Some(m) => match v[i].models@[m].family {
                Some(f) => Some(f@),
                None => None,
            },
        },
    }
}

/// Whether a turn sent with a selection could authenticate.
pub open spec fn is_usable(v: Seq<Instance>, s: Selection) -> bool {
    match instance_named(v, s.instance@) {
        None => false,
        Some(i) => v[i].usable,
    }
}

/// Whether a turn sent with a selection could authenticate.
pub fn selection_is_usable(v: &Vec<Instance>, s: &Selection) -> (r: bool)
    ensures
        r == is_usable(v@, *s),
{
    match find_instance(v, s.instance.as_str()) {
        None => false,
        Some(i) => v[i].usable,
    }
}

/// A model and who serves it, as text.
pub open spec fn chosen(s: Selection) -> (Seq<char>, Seq<char>) {
    (s.instance@, s.model@)
}

/// What is used in place of a model that cannot authenticate: its own product line where that can be
/// had, and whatever comes first where not.
pub open spec fn instead(v: Seq<Instance>, current: Selection, first: Option<Selection>) -> Option<
    (Seq<char>, Seq<char>),
> {
    let line = match family_of(v, current) {
        Some(f) => same_line(v, f),
        None => None,
    };
    match line {
        Some((i, m)) => Some((v[i].id@, v[i].models@[m].id@)),
        None => match first {
            Some(s) => Some(chosen(s)),
            None => None,
        },
    }
}

/// What becomes of a model that was remembered.
#[derive(Debug)]
pub enum Moved {
    Stay,
    /// Nothing works, and this is said.
    Nowhere(String),
    /// Another is used, and this is said.
    To(Selection, String),
}

/// What is said where nothing works.
pub open spec fn nowhere_said(current: Selection) -> Seq<char> {
    current.instance@
        + " cannot authenticate, and nothing else is configured. Press ^P to add a key."@
}

/// What is said of a model used in place of another.
pub open spec fn moved_said(current: Selection, next: (Seq<char>, Seq<char>)) -> Seq<char> {
    current.instance@ + "/"@ + current.model@ + " cannot authenticate \u{2014} using "@ + next.0
        + "/"@ + next.1 + " instead."@
}

fn find_instead(v: &Vec<Instance>, current: &Selection, first: Option<Selection>) -> (r: Option<
    Selection,
>)
    ensures
        match r {
            Some(s) => instead(v@, *current, first) == Some(chosen(s)),
            None => instead(v@, *current, first) is None,
        },
{
    if let Some(i) = find_instance(v, current.instance.as_str()) {
        if let Some(m) = find_model(&v[i].models, current.model.as_str()) {
            if let Some(f) = &v[i].models[m].family {
                if let Some((a, b)) = find_line(v, f.as_str()) {
                    return Some(
                        Selection {
                            instance: v[a].id.clone(),
                            model: v[a].models[b].id.clone(),
                        },
                    );
                }
            }
        }
    }
    first
}

/// Move off a model that cannot authenticate, if there is somewhere sensible to move to. A model
/// that was remembered is a record of what was used, not an instruction; one that was chosen is left
/// alone.
pub fn ensure_usable_selection(
    pinned: bool,
    current: Option<&Selection>,
    v: &Vec<Instance>,
    first: Option<Selection>,
) -> (r: Moved)
    ensures
        match r {
            Moved::Stay => pinned || current is None || is_usable(v@, *current->0),
            Moved::Nowhere(said) => {
                &&& !pinned && current is Some && !is_usable(v@, *current->0)
                &&& instead(v@, *current->0, first) is None
                &&& said@ == nowhere_said(*current->0)
            },
            Moved::To(s, said) => {
                &&& !pinned && current is Some && !is_usable(v@, *current->0)
                &&& instead(v@, *current->0, first) == Some(chosen(s))
                &&& said@ == moved_said(*current->0, chosen(s))
            },
        },
{
    if pinned {
        return Moved::Stay;
    }
    match current {
        None => Moved::Stay,
        Some(c) => {
            if selection_is_usable(v, c) {
                return Moved::Stay;
            }
            match find_instead(v, c, first) {
                None => Moved::Nowhere(
                    concat(
                        c.instance.as_str(),
                        " cannot authenticate, and nothing else is configured. Press ^P to add a key.",
                    ),
                ),
                Some(next) => {
                    let mut said = c.instance.clone();
                    said.push_str("/");
                    said.push_str(c.model.as_str());
                    said.push_str(" cannot authenticate \u{2014} using ");
                    said.push_str(next.instance.as_str());
                    said.push_str("/");
                    said.push_str(next.model.as_str());
                    said.push_str(" instead.");
                    Moved::To(next, said)
                },
            }
        },
    }
}

/// What a model in a product line is replaced by is of the same line, and still offered: any other
/// switch is one that somebody would have to think about.
pub proof fn the_product_line_is_kept(v: Seq<Instance>, family: Seq<char>)
    ensures
        match same_line(v, family) {
            Some((i, m)) => 0 <= i < v.len() && v[i].ready && 0 <= m < v[i].models@.len() && of_line(
                v[i].models@[m],
                family,
            ) && forall|k: int|
                0 <= k < v[i].models@.len() && of_line(#[trigger] v[i].models@[k], family)
                    ==> rank_of(v[i].models@[k]) <= rank_of(v[i].models@[m]),
            None => true,
        },
    decreases v.len(),
{
    if v.len() > 0 {
        the_product_line_is_kept(v.drop_last(), family);
        lemma_biggest(v.last().models@, family);
        match same_line(v.drop_last(), family) {
            Some((i, m)) => {
                assert(v.drop_last()[i] == v[i]);
            },
            None => {},
        }
    }
}

proof fn lemma_biggest(models: Seq<Model>, family: Seq<char>)
    ensures
        match biggest(models, family) {
            Some(m) => 0 <= m < models.len() && of_line(models[m], family) && forall|k: int|
                0 <= k < models.len() && of_line(#[trigger] models[k], family) ==> rank_of(models[k])
                    <= rank_of(models[m]),
            None => forall|k: int|
                0 <= k < models.len() ==> !of_line(#[trigger] models[k], family),
        },
    decreases models.len(),
{
    if models.len() > 0 {
        let less = models.drop_last();
        lemma_biggest(less, family);
        assert forall|k: int| 0 <= k < less.len() implies #[trigger] less[k] == models[k] by {}
        match biggest(models, family) {
            Some(m) => {
                assert forall|k: int|
                    0 <= k < models.len() && of_line(#[trigger] models[k], family) implies rank_of(
                    models[k],
                ) <= rank_of(models[m]) by {
                    if k < less.len() {
                        assert(less[k] == models[k]);
                    }
                }
            },
            None => {
                assert forall|k: int| 0 <= k < models.len() implies !of_line(
                    #[trigger] models[k],
                    family,
                ) by {
                    if k < less.len() {
                        assert(less[k] == models[k]);
                    }
                }
            },
        }
    }
}

// ---- settings ---------------------------------------------------------------

/// What a setting comes to.
#[derive(Debug)]
pub enum Applied {
    Nothing,
    Say(MessageLevel, String),
    /// The model it names is selected, and the rest of the screen says so.
    Select,
    Theme,
    /// The value is written out, and set again.
    SetAgain(String),
    RefreshComposer,
    Motion(bool),
    /// What the model is told first. Nothing, where it is empty.
    SystemPrompt(Option<String>),
}

/// The text of a value.
pub open spec fn text_in(value: OptionValue) -> Option<Seq<char>> {
    match value {
        OptionValue::Str(s) => Some(s@),
        _ => None,
    }
}

/// What is known when a setting is applied.
#[derive(Debug, Clone, Copy)]
pub struct Facts {
    /// The text names an instance and a model.
    pub parses: bool,
    /// A driver serves the instance.
    pub served: bool,
    /// The text names a theme.
    pub themed: bool,
}

fn as_text(value: &OptionValue) -> (r: Option<&str>)
    ensures
        match r {
            Some(s) => text_in(*value) == Some(s@),
            None => text_in(*value) is None,
        },
{
    match value {
        OptionValue::Str(s) => Some(s.as_str()),
        _ => None,
    }
}

/// What a text that names no model is told.
pub open spec fn no_model_said(spec: Seq<char>) -> Seq<char> {
    "agent.model: "@ + quoted_of(spec) + " is not `instance/model`"@
}

/// What a model that nothing serves is told.
pub open spec fn not_served_said(spec: Seq<char>) -> Seq<char> {
    "agent.model: no provider serves "@ + spec
        + ". `neosh --list-models` shows what is reachable."@
}

/// Whether this is what `agent.model` comes to.
pub open spec fn model_applied(was: Startup, value: OptionValue, f: Facts, r: Applied, is: Startup) -> bool {
    let spec = text_in(value);
    if spec is None || spec->0.len() == 0 {
        r is Nothing && is == was
    } else if !f.parses {
        &&& r is Say && r->Say_0 == MessageLevel::Error && r->Say_1@ == no_model_said(spec->0)
        &&& is == was
    } else if f.served {
        r is Select && is == (Startup { pending_model: None, pinned: true, ..was })
    } else if was.loading > 0 || !was.discovered {
        &&& r is Nothing
        &&& is == (Startup { pending_model: is.pending_model, ..was })
        &&& is.pending_model is Some && is.pending_model->0@ == spec->0
    } else {
        &&& r is Say && r->Say_0 == MessageLevel::Error && r->Say_1@ == not_served_said(spec->0)
        &&& is == was
    }
}

/// Act on a setting that is the workspace's own. Everything else is a plugin's business.
pub fn apply_option(
    startup: &mut Startup,
    name: &str,
    value: &OptionValue,
    facts: Facts,
    home: Option<&str>,
) -> (r: Applied)
    ensures
        name@ == "agent.model"@ ==> model_applied(*old(startup), *value, facts, r, *final(startup)),
        name@ != "agent.model"@ ==> *final(startup) == *old(startup),
        name@ == "ui.theme"@ ==> match text_in(*value) {
            None => r is Nothing,
            Some(t) => if facts.themed {
                r is Theme
            } else {
                r is Say && r->Say_0 == MessageLevel::Error && r->Say_1@ == "ui.theme: "@
                    + quoted_of(t) + " is not a theme"@
            },
        },
        name@ == "worktree.root"@ ==> match text_in(*value) {
            Some(t) => if t.len() > 0 && t[0] == '~' && (t.len() == 1 || t[1] == '/') && home is Some
                && home->0@.len() > 0 && home->0@ + t.skip(1) != t {
                r is SetAgain && r->SetAgain_0@ == home->0@ + t.skip(1)
            } else {
                r is Nothing
            },
            None => r is Nothing,
        },
        name@ == "ui.hints"@ ==> r is RefreshComposer,
        name@ == "ui.motion"@ ==> r == Applied::Motion(
            match *value {
                OptionValue::Bool(b) => b,
                _ => true,
            },
        ),
        name@ == "agent.system_prompt"@ ==> r is SystemPrompt && match text_in(*value) {
            Some(t) => if t.len() == 0 {
                r->SystemPrompt_0 is None
            } else {
                r->SystemPrompt_0 is Some && r->SystemPrompt_0->0@ == t
            },
            None => r->SystemPrompt_0 is None,
        },
        name@ != "agent.model"@ && name@ != "ui.theme"@ && name@ != "worktree.root"@ && name@
            != "ui.hints"@ && name@ != "ui.motion"@ && name@ != "agent.system_prompt"@
            ==> r is Nothing,
{
    proof {
        reveal_strlit("agent.model");
        reveal_strlit("ui.theme");
        reveal_strlit("worktree.root");
        reveal_strlit("ui.hints");
        reveal_strlit("ui.motion");
        reveal_strlit("agent.system_prompt");
        assert("ui.theme"@.len() == 8 && "ui.hints"@.len() == 8 && "ui.motion"@.len() == 9);
        assert("agent.model"@.len() == 11 && "worktree.root"@.len() == 13);
        assert("agent.system_prompt"@.len() == 19);
        assert("ui.theme"@[3] == 't' && "ui.hints"@[3] == 'h');
    }
    if same_text(name, "agent.model") {
        return apply_model(startup, value, facts);
    }
    if same_text(name, "ui.theme") {
        return match as_text(value) {
            None => Applied::Nothing,
            Some(t) => if facts.themed {
                Applied::Theme
            } else {
                let mut said = "ui.theme: ".to_owned();
                said.push_str(quoted(t).as_str());
                said.push_str(" is not a theme");
                Applied::Say(MessageLevel::Error, said)
            },
        };
    }
    if same_text(name, "worktree.root") {
        // Written out here, once, so that nothing downstream has to know what `~` means.
        return match as_text(value) {
            None => Applied::Nothing,
            Some(t) => match expand_tilde(t, home) {
                Some(full) => if same_text(full.as_str(), t) {
                    Applied::Nothing
                } else {
                    Applied::SetAgain(full)
                },
                None => Applied::Nothing,
            },
        };
    }
    if same_text(name, "ui.hints") {
        return Applied::RefreshComposer;
    }
    if same_text(name, "ui.motion") {
        return Applied::Motion(
            match value {
                OptionValue::Bool(b) => *b,
                _ => true,
            },
        );
    }
    if same_text(name, "agent.system_prompt") {
        return Applied::SystemPrompt(
            match as_text(value) {
                Some(t) => if chars_of(t).len() == 0 {
                    None
                } else {
                    Some(t.to_owned())
                },
                None => None,
            },
        );
    }
    Applied::Nothing
}

fn apply_model(startup: &mut Startup, value: &OptionValue, facts: Facts) -> (r: Applied)
    ensures
        model_applied(*old(startup), *value, facts, r, *final(startup)),
{
    let spec = match as_text(value) {
        None => {
            return Applied::Nothing;
        },
        Some(s) => s,
    };
    if chars_of(spec).len() == 0 {
        return Applied::Nothing;
    }
    if !facts.parses {
        let mut said = "agent.model: ".to_owned();
        said.push_str(quoted(spec).as_str());
        said.push_str(" is not `instance/model`");
        return Applied::Say(MessageLevel::Error, said);
    }
    if !facts.served {
        // A plugin may be about to register it.
        if startup.loading > 0 || !startup.discovered {
            startup.pending_model = Some(spec.to_owned());
            return Applied::Nothing;
        }
        let mut said = "agent.model: no provider serves ".to_owned();
        said.push_str(spec);
        said.push_str(". `neosh --list-models` shows what is reachable.");
        return Applied::Say(MessageLevel::Error, said);
    }
    startup.pending_model = None;
    // Chosen, not remembered: from here on it is left alone even if it cannot authenticate.
    startup.pinned = true;
    Applied::Select
}

/// What becomes of having no model once everything has loaded.
#[derive(Debug)]
pub enum Fallback {
    /// There is one.
    Keep,
    Select(Selection),
    Say(MessageLevel, &'static str),
}

/// Choose a model where none is chosen: the first that can be used, which a plugin may have
/// registered a moment ago.
pub fn retry_pending_model(selected: bool, first: Option<Selection>) -> (r: Fallback)
    ensures
        r == (if selected {
            Fallback::Keep
        } else {
            match first {
                Some(s) => Fallback::Select(s),
                None => Fallback::Say(
                    MessageLevel::Warn,
                    "no usable model. Set `agent.model`, or run `neosh --list-models`.",
                ),
            }
        }),
{
    if selected {
        return Fallback::Keep;
    }
    match first {
        Some(s) => Fallback::Select(s),
        None => Fallback::Say(
            MessageLevel::Warn,
            "no usable model. Set `agent.model`, or run `neosh --list-models`.",
        ),
    }
}

// ---- what a plan has left ---------------------------------------------------

/// An instance that could be asked what its plan has left.
#[derive(Debug)]
pub struct Plan {
    pub instance: String,
    /// Somebody knows how to ask its driver.
    pub pollable: bool,
    /// The program it signs in with, where it is one. That owns the login.
    pub program: Option<String>,
}

/// Whether an instance is asked: it can be, and it is the one that is meant where one is.
pub open spec fn is_asked(p: Plan, only: Option<&str>) -> bool {
    p.pollable && p.program is Some && (only is Some ==> p.instance@ == only->0@)
}

/// The instances that are asked, in order.
pub open spec fn asked(v: Seq<Plan>, only: Option<&str>) -> Seq<int>
    decreases v.len(),
{
    if v.len() == 0 {
        seq![]
    } else {
        let rest = asked(v.drop_last(), only);
        if is_asked(v.last(), only) {
            rest.push(v.len() - 1)
        } else {
            rest
        }
    }
}

/// Which instances are asked what their plan has left. Nobody is where that is switched off: it is
/// somebody else's credential store, so it is a setting.
pub fn refresh_quota(poll: Option<bool>, v: &Vec<Plan>, only: Option<&str>) -> (r: Vec<usize>)
    ensures
        r@.map_values(|i: usize| i as int) == (if poll == Some(false) {
            seq![]
        } else {
            asked(v@, only)
        }),
{
    let mut r: Vec<usize> = Vec::new();
    if let Some(p) = poll {
        if !p {
            assert(r@.map_values(|i: usize| i as int) =~= seq![]);
            return r;
        }
    }
    let mut i: usize = 0;
    assert(r@.map_values(|i: usize| i as int) =~= asked(v@.take(0), only));
    while i < v.len()
        invariant
            i <= v@.len(),
            r@.map_values(|i: usize| i as int) == asked(v@.take(i as int), only),
        decreases v@.len() - i,
    {
        proof {
            assert(v@.take(i + 1).drop_last() =~= v@.take(i as int));
            assert(v@.take(i + 1).last() == v@[i as int]);
        }
        let meant = match only {
            Some(id) => same_text(v[i].instance.as_str(), id),
            None => true,
        };
        if v[i].pollable && v[i].program.is_some() && meant {
            let ghost was = r@.map_values(|i: usize| i as int);
            r.push(i);
            assert(r@.map_values(|i: usize| i as int) =~= was.push(i as int));
        }
        i = i + 1;
    }
    assert(v@.take(i as int) =~= v@);
    r
}

// ---- the drivers that are part of the program -------------------------------

/// The agents that are driven over the one protocol they share: what each is called here, the
/// program, and what it is started with.
pub const AGENTS: [(&'static str, &'static str, &'static str); 3] = [
    ("cursor-cli", "cursor-agent", "--acp"),
    ("grok-cli", "grok", "--acp"),
    ("gemini-cli", "gemini", "--experimental-acp"),
];

/// A driver to register.
#[derive(Debug, Clone, Copy, PartialEq, Eq, Structural)]
pub enum Driver {
    Anthropic,
    OpenAiCompatible,
    Google,
    ClaudeCli,
    CodexCli,
    /// Which of the agents.
    Agent(usize),
}

/// The drivers of programs on this machine, in order: those whose program is there. One whose every
/// turn fails with "no such file" is worse than one that is not offered.
pub open spec fn local_drivers(claude: bool, codex: bool, agents: Seq<bool>) -> Seq<Driver> {
    (if claude {
        seq![Driver::ClaudeCli]
    } else {
        seq![]
    }) + (if codex {
        seq![Driver::CodexCli]
    } else {
        seq![]
    }) + agents_there(agents, 3)
}

/// The first so many agents, those that are there.
pub open spec fn agents_there(agents: Seq<bool>, n: int) -> Seq<Driver>
    decreases n,
{
    if n <= 0 {
        seq![]
    } else if n - 1 < agents.len() && agents[n - 1] {
        agents_there(agents, n - 1).push(Driver::Agent((n - 1) as usize))
    } else {
        agents_there(agents, n - 1)
    }
}

/// The drivers to register, and those among them that run a program here and have to be told when
/// the permission mode changes.
pub fn install_builtin_providers(claude: bool, codex: bool, agents: &Vec<bool>) -> (r: (
    Vec<Driver>,
    Vec<Driver>,
))
    ensures
        r.1@ == local_drivers(claude, codex, agents@),
        r.0@ == seq![Driver::Anthropic, Driver::OpenAiCompatible, Driver::Google] + r.1@,
{
    let mut local: Vec<Driver> = Vec::new();
    if claude {
        local.push(Driver::ClaudeCli);
    }
    if codex {
        local.push(Driver::CodexCli);
    }
    let ghost first = local@;
    let mut i: usize = 0;
    assert(local@ =~= first + agents_there(agents@, 0));
    while i < 3
        invariant
            i <= 3,
            local@ == first + agents_there(agents@, i as int),
        decreases 3 - i,
    {
        if i < agents.len() && agents[i] {
            local.push(Driver::Agent(i));
            assert(local@ =~= first + agents_there(agents@, i + 1));
        }
        i = i + 1;
    }
    assert(local@ =~= local_drivers(claude, codex, agents@));
    let mut all: Vec<Driver> = Vec::new();
    all.push(Driver::Anthropic);
    all.push(Driver::OpenAiCompatible);
    all.push(Driver::Google);
    let mut k: usize = 0;
    let ghost three = all@;
    assert(three =~= seq![Driver::Anthropic, Driver::OpenAiCompatible, Driver::Google]);
    assert(all@ =~= three + local@.take(0));
    while k < local.len()
        invariant
            k <= local@.len(),
            all@ == three + local@.take(k as int),
        decreases local@.len() - k,
    {
        all.push(local[k]);
        assert(all@ =~= three + local@.take(k + 1));
        k = k + 1;
    }
    assert(local@.take(k as int) =~= local@);
    (all, local)
}

} // verus!
