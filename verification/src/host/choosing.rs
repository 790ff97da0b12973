//! Which model is used, which settings there are, and what the history of a conversation says.

use crate::host::history::{
    answer_to, begins_turn, called_before, counted_calls, standing_of, Told,
};
use crate::host::models::{
    agents_there, asked, biggest, family_of, instance_named, instead, local_drivers, model_applied,
    model_named, rank_of, same_line, Applied, Driver, Facts, Instance, Model, Plan, Selection,
};
use crate::host::options::{
    names_in, no_two_settings_share_a_name, takes, OptionType, OptionValue, OPTIONS,
};
use crate::host::startup::Startup;
use crate::host::cards::ToolState;
use crate::letters::{pieces_put_together_are_the_text, together};
use vstd::prelude::*;

verus! {

// ---- models -----------------------------------------------------------------

/// Whether a model is one of a product line that is still offered.
pub open spec fn is_offered(m: Model, family: Seq<char>) -> bool {
    !m.legacy && match m.family {
        Some(f) => f@ == family,
        None => false,
    }
}

/// The biggest model of a product line is one of it, no other of it is bigger, and none of the same
/// size comes after it; there is none only where none of the line is offered.
pub proof fn the_biggest_is_the_biggest(models: Seq<Model>, family: Seq<char>)
    ensures
        match biggest(models, family) {
            Some(b) => {
                &&& 0 <= b < models.len()
                &&& is_offered(models[b], family)
                &&& forall|i: int|
                    0 <= i < models.len() && #[trigger] is_offered(models[i], family) ==> rank_of(
                        models[i],
                    ) <= rank_of(models[b]) && (i > b ==> rank_of(models[i]) < rank_of(models[b]))
            },
            None => forall|i: int|
                0 <= i < models.len() ==> !#[trigger] is_offered(models[i], family),
        },
    decreases models.len(),
{
    if models.len() > 0 {
        let front = models.drop_last();
        let n = models.len() - 1;
        the_biggest_is_the_biggest(front, family);
        assert forall|i: int| 0 <= i < n && #[trigger] is_offered(
            models[i],
            family,
        ) implies is_offered(front[i], family) by {
            assert(front[i] == models[i]);
        }
        assert(crate::host::models::of_line(models[n], family) == is_offered(models[n], family));
    }
}

/// A size that is not known is the smallest.
pub proof fn an_unknown_size_is_the_smallest(m: Model)
    ensures
        m.tier is Some ==> rank_of(m) == m.tier->0,
        m.tier is None ==> rank_of(m) == 0,
{
}

/// Whether an instance can be used as it is for a product line.
pub open spec fn can_serve(x: Instance, family: Seq<char>) -> bool {
    x.ready && exists|m: int|
        0 <= m < x.models@.len() && #[trigger] is_offered(x.models@[m], family)
}

/// The instance that a product line goes on with is the first that is ready and has one of it; there
/// is none only where none has.
pub proof fn a_line_goes_on_with_the_first_that_has_it(v: Seq<Instance>, family: Seq<char>)
    ensures
        match same_line(v, family) {
            Some((i, m)) => {
                &&& 0 <= i < v.len()
                &&& v[i].ready
                &&& biggest(v[i].models@, family) == Some(m)
                &&& forall|j: int| 0 <= j < i ==> !#[trigger] can_serve(v[j], family)
            },
            None => forall|j: int| 0 <= j < v.len() ==> !#[trigger] can_serve(v[j], family),
        },
    decreases v.len(),
{
    if v.len() > 0 {
        let front = v.drop_last();
        let n = v.len() - 1;
        a_line_goes_on_with_the_first_that_has_it(front, family);
        the_biggest_is_the_biggest(v[n].models@, family);
        match same_line(front, family) {
            Some((i, m)) => {
                assert(front[i] == v[i]);
                assert forall|j: int| 0 <= j < i implies !#[trigger] can_serve(v[j], family) by {
                    assert(!can_serve(front[j], family));
                }
            },
            None => {
                assert forall|j: int| 0 <= j < n implies !#[trigger] can_serve(v[j], family) by {
                    assert(!can_serve(front[j], family));
                }
            },
        }
    }
}

/// An instance is found by its name, the first of it, and not found only where there is none.
pub proof fn an_instance_is_found_by_its_name(v: Seq<Instance>, id: Seq<char>)
    ensures
        match instance_named(v, id) {
            Some(i) => {
                &&& 0 <= i < v.len()
                &&& v[i].id@ == id
                &&& forall|j: int| 0 <= j < i ==> (#[trigger] v[j]).id@ != id
            },
            None => forall|j: int| 0 <= j < v.len() ==> (#[trigger] v[j]).id@ != id,
        },
    decreases v.len(),
{
    if v.len() > 0 && v[0].id@ != id {
        let rest = v.skip(1);
        an_instance_is_found_by_its_name(rest, id);
        let upto = match instance_named(rest, id) {
            Some(i) => i + 1,
            None => v.len() as int,
        };
        assert forall|j: int| 0 <= j < upto implies (#[trigger] v[j]).id@ != id by {
            if j > 0 {
                assert(rest[j - 1] == v[j]);
            }
        }
    }
}

/// A model is found by its name, the first of it, and not found only where there is none.
pub proof fn a_model_is_found_by_its_name(v: Seq<Model>, id: Seq<char>)
    ensures
        match model_named(v, id) {
            Some(i) => {
                &&& 0 <= i < v.len()
                &&& v[i].id@ == id
                &&& forall|j: int| 0 <= j < i ==> (#[trigger] v[j]).id@ != id
            },
            None => forall|j: int| 0 <= j < v.len() ==> (#[trigger] v[j]).id@ != id,
        },
    decreases v.len(),
{
    if v.len() > 0 && v[0].id@ != id {
        let rest = v.skip(1);
        a_model_is_found_by_its_name(rest, id);
        let upto = match model_named(rest, id) {
            Some(i) => i + 1,
            None => v.len() as int,
        };
        assert forall|j: int| 0 <= j < upto implies (#[trigger] v[j]).id@ != id by {
            if j > 0 {
                assert(rest[j - 1] == v[j]);
            }
        }
    }
}

/// What is used in the place of a model that cannot be is of the same product line, wherever anything
/// of it is ready; and else the first that works, if anything does.
pub proof fn a_model_is_replaced_by_one_of_its_line(
    v: Seq<Instance>,
    current: Selection,
    first: Option<Selection>,
    family: Seq<char>,
)
    requires
        family_of(v, current) == Some(family),
    ensures
        match instead(v, current, first) {
            Some((instance, model)) => {
                ||| exists|i: int, m: int|
                    {
                        &&& 0 <= i < v.len() && 0 <= m < v[i].models@.len()
                        &&& v[i].ready && v[i].id@ == instance
                        &&& #[trigger] v[i].models@[m].id@ == model
                        &&& is_offered(v[i].models@[m], family)
                    }
                ||| {
                    &&& first is Some && first->0.instance@ == instance && first->0.model@ == model
                    &&& forall|j: int| 0 <= j < v.len() ==> !#[trigger] can_serve(v[j], family)
                }
            },
            None => first is None && forall|j: int|
                0 <= j < v.len() ==> !#[trigger] can_serve(v[j], family),
        },
{
    a_line_goes_on_with_the_first_that_has_it(v, family);
    if let Some((i, m)) = same_line(v, family) {
        the_biggest_is_the_biggest(v[i].models@, family);
        let model = v[i].models@[m].id@;
        assert(instead(v, current, first) == Some((v[i].id@, model)));
        assert(v[i].models@[m].id@ == model);
    }
}

/// A model that is named is used where something serves it, kept for later where something may still
/// come to, and complained of otherwise; a name that is empty is no name.
pub proof fn a_model_that_is_named_is_used_kept_or_complained_of(
    was: Startup,
    value: OptionValue,
    f: Facts,
    r: Applied,
    is: Startup,
)
    requires
        model_applied(was, value, f, r, is),
    ensures
        ({
            let named = value is Str && value->Str_0@.len() > 0;
            let waits = was.loading > 0 || !was.discovered;
            &&& (r is Select) == (named && f.parses && f.served)
            &&& (r is Say) == (named && (!f.parses || (!f.served && !waits)))
            &&& r is Select ==> is.pinned && is.pending_model is None
            &&& named && f.parses && !f.served && waits ==> is.pending_model is Some
                && is.pending_model->0@ == value->Str_0@
            &&& !(r is Select) ==> is.pinned == was.pinned
            &&& !(named && f.parses) ==> is == was
        }),
{
}

/// The plans that are asked are those somebody knows how to ask that sign in with a program, and of
/// these only the one that was named, where one was.
pub proof fn every_plan_that_can_be_is_asked(v: Seq<Plan>, only: Option<&str>)
    ensures
        forall|i: int| #[trigger]
            asked(v, only).contains(i) == (0 <= i < v.len() && v[i].pollable
                && v[i].program is Some && match only {
                Some(o) => v[i].instance@ == o@,
                None => true,
            }),
        forall|i: int, j: int|
            0 <= i < j < asked(v, only).len() ==> #[trigger] asked(v, only)[i]
                < #[trigger] asked(v, only)[j],
    decreases v.len(),
{
    let r = asked(v, only);
    if v.len() > 0 {
        let front = v.drop_last();
        let n = v.len() - 1;
        let rest = asked(front, only);
        every_plan_that_can_be_is_asked(front, only);
        assert forall|i: int| #[trigger]
            r.contains(i) == (0 <= i < v.len() && v[i].pollable && v[i].program is Some && match only {
                Some(o) => v[i].instance@ == o@,
                None => true,
            }) by {
            if r.contains(i) {
                let k = choose|k: int| 0 <= k < r.len() && r[k] == i;
                if k < rest.len() {
                    assert(rest[k] == i);
                    assert(rest.contains(i));
                    assert(front[i] == v[i]);
                }
            }
            if rest.contains(i) {
                let k = choose|k: int| 0 <= k < rest.len() && rest[k] == i;
                assert(r[k] == i);
            }
            if 0 <= i < n {
                assert(front[i] == v[i]);
            }
            if i == n && r.len() > rest.len() {
                assert(r[rest.len() as int] == n);
            }
        }
        assert forall|i: int, j: int| 0 <= i < j < r.len() implies #[trigger] r[i]
            < #[trigger] r[j] by {
            assert(rest.contains(rest[i]));
        }
    }
}

proof fn lemma_agents(agents: Seq<bool>, n: int, i: usize)
    requires
        0 <= n <= 3,
    ensures
        agents_there(agents, n).contains(Driver::Agent(i)) == (i < n && i < agents.len()
            && agents[i as int]),
        !agents_there(agents, n).contains(Driver::ClaudeCli),
        !agents_there(agents, n).contains(Driver::CodexCli),
    decreases n,
{
    if n > 0 {
        lemma_agents(agents, n - 1, i);
        let rest = agents_there(agents, n - 1);
        let all = agents_there(agents, n);
        assert forall|d: Driver| #[trigger]
            all.contains(d) == (rest.contains(d) || (all.len() > rest.len() && d == Driver::Agent(
                (n - 1) as usize,
            ))) by {
            if rest.contains(d) {
                let k = choose|k: int| 0 <= k < rest.len() && rest[k] == d;
                assert(all[k] == d);
            }
            if all.contains(d) {
                let k = choose|k: int| 0 <= k < all.len() && all[k] == d;
                if k < rest.len() {
                    assert(rest[k] == d);
                }
            }
            if all.len() > rest.len() {
                assert(all[rest.len() as int] == Driver::Agent((n - 1) as usize));
            }
        }
    }
}

/// A program on this machine is driven where it is there, and no other is.
pub proof fn what_is_on_the_machine_is_driven(claude: bool, codex: bool, agents: Seq<bool>, i: usize)
    ensures
        local_drivers(claude, codex, agents).contains(Driver::ClaudeCli) == claude,
        local_drivers(claude, codex, agents).contains(Driver::CodexCli) == codex,
        local_drivers(claude, codex, agents).contains(Driver::Agent(i)) == (i < 3 && i
            < agents.len() && agents[i as int]),
{
    lemma_agents(agents, 3, i);
    let a = if claude {
        seq![Driver::ClaudeCli]
    } else {
        seq![]
    };
    let b = if codex {
        seq![Driver::CodexCli]
    } else {
        seq![]
    };
    let c = agents_there(agents, 3);
    let all = local_drivers(claude, codex, agents);
    assert(all == a + b + c);
    if claude {
        assert(all[0] == Driver::ClaudeCli);
    }
    if codex {
        assert(all[a.len() as int] == Driver::CodexCli);
    }
    assert forall|d: Driver| #[trigger]
        all.contains(d) implies (claude && d == Driver::ClaudeCli) || (codex && d
        == Driver::CodexCli) || c.contains(d) by {
        let k = choose|k: int| 0 <= k < all.len() && all[k] == d;
        if k >= a.len() + b.len() {
            assert(c[k - a.len() - b.len()] == d);
        }
    }
    if c.contains(Driver::Agent(i)) {
        let k = choose|k: int| 0 <= k < c.len() && c[k] == Driver::Agent(i);
        assert(all[a.len() + b.len() + k] == Driver::Agent(i));
    }
}

// ---- settings ---------------------------------------------------------------

/// Which switches are on when nobody has said, and which are off.
pub proof fn each_switch_starts_as_it_should(i: int)
    requires
        0 <= i < 34,
    ensures
        ({
            let name = OPTIONS@[i].0@;
            &&& (OPTIONS@[i].1 is On) == (name == "chat.markdown"@ || name == "chat.show_tools"@
                || name == "chat.show_plan"@ || name == "ui.motion"@ || name
                == "ui.confirm_destructive"@)
            &&& (OPTIONS@[i].1 is Off) == (name == "chat.show_thinking"@ || name == "ui.hints"@
                || name == "ui.ascii_only"@ || name == "ui.nerd_font"@)
            &&& (OPTIONS@[i].1 is Number) == (name == "chat.plan_rows"@ || name
                == "chat.tool_output_lines"@ || name == "chat.diff_lines"@ || name
                == "timeoutlen"@)
            &&& (OPTIONS@[i].1 is Names) == (name == "ui.modal_escape_keys"@ || name
                == "plugins.disabled"@)
            &&& (OPTIONS@[i].1 is Choice) == (name == "ui.theme"@)
            &&& (OPTIONS@[i].1 is WorktreeRoot) == (name == "worktree.root"@)
        }),
{
    assert(OPTIONS@[2].0@ == "chat.markdown"@ && OPTIONS@[4].0@ == "chat.show_tools"@);
    assert(OPTIONS@[5].0@ == "chat.show_plan"@ && OPTIONS@[28].0@ == "ui.motion"@);
    assert(OPTIONS@[30].0@ == "ui.confirm_destructive"@ && OPTIONS@[3].0@ == "chat.show_thinking"@);
    assert(OPTIONS@[25].0@ == "ui.hints"@ && OPTIONS@[27].0@ == "ui.ascii_only"@);
    assert(OPTIONS@[29].0@ == "ui.nerd_font"@ && OPTIONS@[6].0@ == "chat.plan_rows"@);
    assert(OPTIONS@[7].0@ == "chat.tool_output_lines"@ && OPTIONS@[8].0@ == "chat.diff_lines"@);
    assert(OPTIONS@[10].0@ == "timeoutlen"@ && OPTIONS@[26].0@ == "ui.modal_escape_keys"@);
    assert(OPTIONS@[32].0@ == "plugins.disabled"@ && OPTIONS@[31].0@ == "ui.theme"@);
    assert(OPTIONS@[24].0@ == "worktree.root"@);
    lemma_named(i, 2);
    lemma_named(i, 3);
    lemma_named(i, 4);
    lemma_named(i, 5);
    lemma_named(i, 6);
    lemma_named(i, 7);
    lemma_named(i, 8);
    lemma_named(i, 10);
    lemma_named(i, 24);
    lemma_named(i, 25);
    lemma_named(i, 26);
    lemma_named(i, 27);
    lemma_named(i, 28);
    lemma_named(i, 29);
    lemma_named(i, 30);
    lemma_named(i, 31);
    lemma_named(i, 32);
}

proof fn lemma_named(i: int, j: int)
    requires
        0 <= i < 34,
        0 <= j < 34,
    ensures
        (OPTIONS@[i].0@ == OPTIONS@[j].0@) == (i == j),
{
    if OPTIONS@[i].0@ == OPTIONS@[j].0@ {
        no_two_settings_share_a_name(i, j);
    }
}

/// How far each number may go, and what it is when nobody has said.
pub proof fn each_number_has_its_bounds(i: int)
    requires
        0 <= i < 34,
    ensures
        ({
            let name = OPTIONS@[i].0@;
            let (low, high, n) = OPTIONS@[i].3;
            &&& name == "chat.plan_rows"@ ==> low == 0 && high == 50 && n == 5
            &&& name == "chat.tool_output_lines"@ ==> low == 0 && high == 200 && n == 3
            &&& name == "chat.diff_lines"@ ==> low == 0 && high == 500 && n == 12
            &&& name == "timeoutlen"@ ==> low == 0 && high == 10_000 && n == 500
            &&& low <= n <= high
        }),
{
    assert(OPTIONS@[6].0@ == "chat.plan_rows"@ && OPTIONS@[7].0@ == "chat.tool_output_lines"@);
    assert(OPTIONS@[8].0@ == "chat.diff_lines"@ && OPTIONS@[10].0@ == "timeoutlen"@);
    lemma_named(i, 6);
    lemma_named(i, 7);
    lemma_named(i, 8);
    lemma_named(i, 10);
}

/// What each setting of text is when nobody has said: the keys of a list and of a field, and nothing
/// for a model.
pub proof fn each_text_starts_as_it_should(i: int)
    requires
        0 <= i < 34,
    ensures
        ({
            let name = OPTIONS@[i].0@;
            let text = OPTIONS@[i].2@;
            &&& name == "agent.model"@ || name == "agent.system_prompt"@ || name == "gen.model"@
                ==> text == ""@
            &&& name == "mapleader"@ ==> text == "\\"@
            &&& name == "ui.keys.next"@ ==> text == "<C-n> <Down> <C-j>"@
            &&& name == "ui.keys.prev"@ ==> text == "<C-p> <Up> <C-k>"@
            &&& name == "ui.keys.page_down"@ ==> text == "<PageDown>"@
            &&& name == "ui.keys.page_up"@ ==> text == "<PageUp>"@
            &&& name == "ui.keys.first"@ ==> text == "<C-Home>"@
            &&& name == "ui.keys.last"@ ==> text == "<C-End>"@
            &&& name == "ui.keys.accept"@ ==> text == "<CR>"@
            &&& name == "ui.keys.dismiss"@ ==> text == "<Esc> <C-c>"@
            &&& name == "ui.keys.complete"@ ==> text == "<Tab> <Right>"@
            &&& name == "ui.keys.clear"@ ==> text == "<C-u>"@
            &&& name == "ui.keys.delete_word"@ ==> text == "<C-w>"@
            &&& name == "ui.keys.pane_next"@ ==> text == "<Tab> <Right>"@
            &&& name == "ui.keys.pane_prev"@ ==> text == "<S-Tab> <Left>"@
            &&& name == "ui.modal_escape_keys"@ ==> text == "<C-q> <C-r>"@
            &&& name == "ui.theme"@ ==> text == "dark light"@
        }),
{
    assert(OPTIONS@[0].0@ == "agent.model"@ && OPTIONS@[1].0@ == "agent.system_prompt"@);
    assert(OPTIONS@[33].0@ == "gen.model"@ && OPTIONS@[9].0@ == "mapleader"@);
    assert(OPTIONS@[11].0@ == "ui.keys.next"@ && OPTIONS@[12].0@ == "ui.keys.prev"@);
    assert(OPTIONS@[13].0@ == "ui.keys.page_down"@ && OPTIONS@[14].0@ == "ui.keys.page_up"@);
    assert(OPTIONS@[15].0@ == "ui.keys.first"@ && OPTIONS@[16].0@ == "ui.keys.last"@);
    assert(OPTIONS@[17].0@ == "ui.keys.accept"@ && OPTIONS@[18].0@ == "ui.keys.dismiss"@);
    assert(OPTIONS@[19].0@ == "ui.keys.complete"@ && OPTIONS@[20].0@ == "ui.keys.clear"@);
    assert(OPTIONS@[21].0@ == "ui.keys.delete_word"@ && OPTIONS@[22].0@ == "ui.keys.pane_next"@);
    assert(OPTIONS@[23].0@ == "ui.keys.pane_prev"@ && OPTIONS@[26].0@ == "ui.modal_escape_keys"@);
    assert(OPTIONS@[31].0@ == "ui.theme"@);
    lemma_named(i, 0);
    lemma_named(i, 1);
    lemma_named(i, 9);
    lemma_named(i, 11);
    lemma_named(i, 12);
    lemma_named(i, 13);
    lemma_named(i, 14);
    lemma_named(i, 15);
    lemma_named(i, 16);
    lemma_named(i, 17);
    lemma_named(i, 18);
    lemma_named(i, 19);
    lemma_named(i, 20);
    lemma_named(i, 21);
    lemma_named(i, 22);
    lemma_named(i, 23);
    lemma_named(i, 26);
    lemma_named(i, 31);
    lemma_named(i, 33);
}

/// A value is taken where it is of the kind its setting is, and within its bounds or among its
/// choices.
pub proof fn a_value_is_taken_where_it_fits(low: i64, high: i64, n: i64, b: bool, ty: OptionType)
    ensures
        takes(OptionType::Int(Some(low), Some(high)), OptionValue::Int(n)) == (low <= n <= high),
        takes(OptionType::Int(None, None), OptionValue::Int(n)),
        takes(OptionType::Bool, OptionValue::Bool(b)),
        takes(ty, OptionValue::Bool(b)) ==> ty is Bool,
        takes(ty, OptionValue::Int(n)) ==> ty is Int,
{
}

/// Names are written with a space between one and the next.
pub proof fn names_are_written_with_a_space_between(s: Seq<char>)
    ensures
        s.len() == 0 ==> names_in(s).len() == 0,
        s.len() > 0 ==> together(names_in(s), ' ') == s,
        forall|k: int, i: int|
            0 <= k < names_in(s).len() && 0 <= i < names_in(s)[k].len()
                ==> #[trigger] names_in(s)[k][i] != ' ',
{
    pieces_put_together_are_the_text(s, ' ');
}

// ---- what was said ----------------------------------------------------------

/// What answers a call is the last result that names it, and there is none only where none does.
pub proof fn a_call_is_answered_by_its_last_result(history: Seq<Told>, id: Seq<char>)
    ensures
        match answer_to(history, id) {
            Some(r) => exists|i: int|
                {
                    &&& 0 <= i < history.len()
                    &&& #[trigger] history[i] is Result && history[i]->Result_0@ == id
                    &&& history[i]->Result_1 == r
                    &&& forall|j: int|
                        i < j < history.len() ==> !(#[trigger] history[j] is Result
                            && history[j]->Result_0@ == id)
                },
            None => forall|j: int|
                0 <= j < history.len() ==> !(#[trigger] history[j] is Result
                    && history[j]->Result_0@ == id),
        },
    decreases history.len(),
{
    if history.len() > 0 {
        let n = history.len() - 1;
        let front = history.drop_last();
        a_call_is_answered_by_its_last_result(front, id);
        if history[n] is Result && history[n]->Result_0@ == id {
            assert(history[n] is Result);
        } else {
            match answer_to(front, id) {
                Some(r) => {
                    let i = choose|i: int|
                        {
                            &&& 0 <= i < front.len()
                            &&& #[trigger] front[i] is Result && front[i]->Result_0@ == id
                            &&& front[i]->Result_1 == r
                            &&& forall|j: int|
                                i < j < front.len() ==> !(#[trigger] front[j] is Result
                                    && front[j]->Result_0@ == id)
                        };
                    assert(history[i] == front[i]);
                    assert forall|j: int| i < j < history.len() implies !(#[trigger] history[j] is Result
                        && history[j]->Result_0@ == id) by {
                        if j < n {
                            assert(front[j] == history[j]);
                        }
                    }
                },
                None => {
                    assert forall|j: int| 0 <= j < history.len() implies !(
                    #[trigger] history[j] is Result && history[j]->Result_0@ == id) by {
                        if j < n {
                            assert(front[j] == history[j]);
                        }
                    }
                },
            }
        }
    }
}

/// A call that came back with an error failed, and one that came back without is done.
pub proof fn a_call_stands_as_it_came_back(history: Seq<Told>, id: Seq<char>)
    ensures
        (standing_of(history, id).state == ToolState::Failed) == (answer_to(history, id) is Some
            && answer_to(history, id)->0.is_error),
        (standing_of(history, id).state == ToolState::Done) == (answer_to(history, id) is Some
            && !answer_to(history, id)->0.is_error),
        (standing_of(history, id).output is None) == (answer_to(history, id) is None),
{
}

/// A result goes with the last call of that name before it.
pub proof fn a_result_goes_with_the_last_call_before_it(history: Seq<Told>, id: Seq<char>)
    ensures
        match called_before(history, id) {
            Some(i) => {
                &&& 0 <= i < history.len()
                &&& history[i] is Call && history[i]->Call_0@ == id
                &&& forall|j: int|
                    i < j < history.len() ==> !(#[trigger] history[j] is Call && history[j]->Call_0@
                        == id)
            },
            None => forall|j: int|
                0 <= j < history.len() ==> !(#[trigger] history[j] is Call && history[j]->Call_0@
                    == id),
        },
    decreases history.len(),
{
    if history.len() > 0 {
        let n = history.len() - 1;
        let front = history.drop_last();
        a_result_goes_with_the_last_call_before_it(front, id);
        if !(history[n] is Call && history[n]->Call_0@ == id) {
            let from = match called_before(front, id) {
                Some(i) => i,
                None => -1,
            };
            assert forall|j: int| from < j < history.len() implies !(#[trigger] history[j] is Call
                && history[j]->Call_0@ == id) by {
                if j < n {
                    assert(front[j] == history[j]);
                }
            }
        }
    }
}

/// A turn begins with what somebody asked, or with the first of the pictures before it.
pub proof fn a_turn_begins_with_what_was_asked(history: Seq<Told>, last: Told)
    ensures
        history.len() == 0 ==> begins_turn(history.push(last)) == (last is Picture
            || last is Question),
        history.len() > 0 ==> begins_turn(history.push(last)) == ((last is Picture
            || last is Question) && !(history.last() is Picture)),
{
    let h = history.push(last);
    assert(h.last() == last);
    if history.len() > 0 {
        assert(h[h.len() - 2] == history.last());
    }
}

/// Every call that came back without an error since the turn began is counted, and none from before
/// it.
pub proof fn every_call_of_the_turn_is_counted(history: Seq<Told>, of: String, last: Told)
    requires
        last is Result,
        last->Result_0 == of,
    ensures
        ({
            let all = counted_calls(history.push(last), true);
            let before = counted_calls(history, true);
            &&& before.is_prefix_of(all)
            &&& (all.len() > before.len()) == (!last->Result_1.is_error && exists|i: int|
                0 <= i < history.len() && #[trigger] history[i] is Call && history[i]->Call_0@
                    == of@)
            &&& all.len() <= before.len() + 1
            &&& all.len() > before.len() ==> history[all.last()] is Call
                && history[all.last()]->Call_0@ == of@
        }),
        begins_turn(history.push(Told::Question)) ==> counted_calls(
            history.push(Told::Question),
            true,
        ).len() == 0,
        counted_calls(history.push(Told::Answer), true) == counted_calls(history, true),
        counted_calls(history.push(last), false) == counted_calls(history, false),
{
    assert(history.push(last).drop_last() =~= history);
    assert(history.push(Told::Answer).drop_last() =~= history);
    a_result_goes_with_the_last_call_before_it(history, of@);
    let all = counted_calls(history.push(last), true);
    let before = counted_calls(history, true);
    assert(before.is_prefix_of(all));
}

} // verus!
