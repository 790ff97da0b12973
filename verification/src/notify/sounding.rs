//! What is said out loud, what is not, and how long it waits.

use crate::notify::quoting::{between, doubled, slashed};
use crate::notify::{
    is_collapse, is_due, loudest, offered, remembered, taken, wait_at, Alert, AlertReason,
    AwayPolicy, DesktopPolicy, MessageLevel, NotifierState, NotifyConfig, Topic,
};
use crate::text::{decimal, texts};
use vstd::prelude::*;

verus! {

/// The name that each reason is asked for by.
pub proof fn each_reason_is_asked_for_by_its_name(r: AlertReason)
    ensures
        (r.name() == "turn.done"@) == (r == AlertReason::TurnDone),
        (r.name() == "question"@) == (r == AlertReason::Question),
        (r.name() == "permission"@) == (r == AlertReason::Permission),
        (r.name() == "failure"@) == (r == AlertReason::Failure),
        (r.name() == "quota"@) == (r == AlertReason::Quota),
        (r.name() == "plugin"@) == (r == AlertReason::Plugin),
{
    crate::notify::every_reason_has_a_name_of_its_own(r, AlertReason::TurnDone);
    crate::notify::every_reason_has_a_name_of_its_own(r, AlertReason::Question);
    crate::notify::every_reason_has_a_name_of_its_own(r, AlertReason::Permission);
    crate::notify::every_reason_has_a_name_of_its_own(r, AlertReason::Failure);
    crate::notify::every_reason_has_a_name_of_its_own(r, AlertReason::Quota);
    crate::notify::every_reason_has_a_name_of_its_own(r, AlertReason::Plugin);
}

/// The words that a policy is written with, and no others.
pub proof fn each_policy_has_its_words(s: Seq<char>)
    ensures
        (AwayPolicy::named(s) == Some(AwayPolicy::Focus)) == (s == "focus"@),
        (AwayPolicy::named(s) == Some(AwayPolicy::Offscreen)) == (s == "offscreen"@),
        (AwayPolicy::named(s) == Some(AwayPolicy::Never)) == (s == "never"@ || s == "off"@),
        (DesktopPolicy::named(s) == Some(DesktopPolicy::Always)) == (s == "always"@),
        (DesktopPolicy::named(s) == Some(DesktopPolicy::Never)) == (s == "never"@ || s == "off"@),
        (DesktopPolicy::named(s) == Some(DesktopPolicy::WhenDetached)) == (s == "when-detached"@ || s
            == "when_detached"@),
{
    reveal_strlit("focus");
    reveal_strlit("offscreen");
    reveal_strlit("never");
    reveal_strlit("off");
    reveal_strlit("always");
    reveal_strlit("when-detached");
    reveal_strlit("when_detached");
    assert("focus"@[0] == 'f' && "never"@[0] == 'n' && "offscreen"@.len() == 9 && "off"@.len() == 3);
    assert("always"@.len() == 6 && "when-detached"@.len() == 13 && "when_detached"@.len() == 13);
}

/// A reason is wanted where its name is on the list and nothing has been switched off.
pub proof fn what_is_wanted_is_on_the_list(cfg: NotifyConfig, reason: AlertReason)
    ensures
        cfg.wants(reason) == (cfg.enabled && exists|i: int|
            0 <= i < cfg.when@.len() && (#[trigger] cfg.when@[i])@ == reason.name()),
{
    let names = texts(cfg.when@);
    if names.contains(reason.name()) {
        let i = choose|i: int| 0 <= i < names.len() && names[i] == reason.name();
        assert(cfg.when@[i]@ == reason.name());
    }
    if exists|i: int| 0 <= i < cfg.when@.len() && (#[trigger] cfg.when@[i])@ == reason.name() {
        let i = choose|i: int|
            0 <= i < cfg.when@.len() && (#[trigger] cfg.when@[i])@ == reason.name();
        assert(names[i] == reason.name());
    }
}

/// What is taken is gathered behind what was gathered before it, and the wait goes on from the first
/// of them; what is not taken changes nothing.
pub proof fn what_is_taken_is_gathered(
    s: NotifierState,
    reason: AlertReason,
    session: Option<Seq<char>>,
    alert: Alert,
    now: u64,
)
    ensures
        ({
            let t = offered(s, reason, session, alert, now);
            &&& taken(s, reason, session, now) ==> {
                &&& t.pending == s.pending.push(alert)
                &&& s.since is Some ==> t.since == s.since
                &&& s.since is None ==> t.since == Some(now)
                &&& t.cfg == s.cfg
                &&& session is None ==> t.said == s.said
            }
            &&& !taken(s, reason, session, now) ==> t == s
        }),
        !s.cfg.wants(reason) ==> !taken(s, reason, session, now),
        session is None ==> taken(s, reason, session, now) == s.cfg.wants(reason),
{
}

/// What was said of a conversation for a reason is not said again for twenty seconds, and then it
/// is.
pub proof fn a_thing_is_news_again_after_twenty_seconds(
    s: NotifierState,
    reason: AlertReason,
    session: Seq<char>,
    at: u64,
    now: u64,
)
    requires
        s.cfg.wants(reason),
        s.said.contains_key((session, reason)),
        s.said[(session, reason)] == at,
    ensures
        taken(s, reason, Some(session), now) == (now - at >= 20_000_000_000),
{
}

/// What has just been said is remembered, and so is everything that was said less than twenty seconds
/// ago; nothing at all is forgotten while there are no more than two hundred and fifty-six of them.
pub proof fn what_was_just_said_is_remembered(said: Map<Topic, u64>, topic: Topic, now: u64, other: Topic)
    requires
        said.dom().finite(),
        other != topic,
    ensures
        remembered(said, topic, now).contains_key(topic),
        remembered(said, topic, now)[topic] == now,
        said.contains_key(other) && now - said[other] < 20_000_000_000 ==> remembered(
            said,
            topic,
            now,
        ).contains_key(other) && remembered(said, topic, now)[other] == said[other],
        said.contains_key(other) && said.dom().len() < 256 ==> remembered(
            said,
            topic,
            now,
        ).contains_key(other),
        remembered(said, topic, now).contains_key(other) ==> said.contains_key(other),
{
    let more = said.insert(topic, now);
    assert(more.dom() =~= said.dom().insert(topic));
}

/// A burst is gathered for a second and a half from the first of it, and goes out then.
pub proof fn a_burst_lasts_a_second_and_a_half(s: NotifierState, now: u64)
    ensures
        (wait_at(s, now) is None) == (s.since is None),
        s.since is Some && now >= s.since->0 ==> {
            &&& is_due(s, now) == (now - s.since->0 >= 1_500_000_000)
            &&& !is_due(s, now) ==> wait_at(s, now)->0 + (now - s.since->0) == 1_500_000_000
            &&& is_due(s, now) ==> wait_at(s, now) == Some(0u64)
        },
        s.since is Some && now < s.since->0 ==> wait_at(s, now) == Some(1_500_000_000u64),
        s.since is None ==> !is_due(s, now),
{
}

/// An error is louder than a warning, and a warning than anything else.
pub proof fn an_error_is_heard_over_everything(alerts: Seq<Alert>)
    ensures
        (loudest(alerts) == MessageLevel::Error) == (exists|i: int|
            0 <= i < alerts.len() && (#[trigger] alerts[i]).level == MessageLevel::Error),
        (loudest(alerts) == MessageLevel::Info) == (forall|i: int|
            0 <= i < alerts.len() ==> (#[trigger] alerts[i]).level == MessageLevel::Info),
    decreases alerts.len(),
{
    if alerts.len() > 0 {
        let front = alerts.drop_last();
        let n = alerts.len() - 1;
        an_error_is_heard_over_everything(front);
        if exists|i: int| 0 <= i < front.len() && (#[trigger] front[i]).level == MessageLevel::Error {
            let i = choose|i: int|
                0 <= i < front.len() && (#[trigger] front[i]).level == MessageLevel::Error;
            assert(alerts[i].level == MessageLevel::Error);
        }
        if exists|i: int| 0 <= i < alerts.len() && (#[trigger] alerts[i]).level
            == MessageLevel::Error {
            let i = choose|i: int|
                0 <= i < alerts.len() && (#[trigger] alerts[i]).level == MessageLevel::Error;
            if i < n {
                assert(front[i].level == MessageLevel::Error);
            }
        }
        if forall|i: int| 0 <= i < alerts.len() ==> (#[trigger] alerts[i]).level
            == MessageLevel::Info {
            assert forall|i: int| 0 <= i < front.len() implies (#[trigger] front[i]).level
                == MessageLevel::Info by {
                assert(alerts[i].level == MessageLevel::Info);
            }
            assert(alerts[n].level == MessageLevel::Info);
        }
        if loudest(alerts) == MessageLevel::Info {
            assert forall|i: int| 0 <= i < alerts.len() implies (#[trigger] alerts[i]).level
                == MessageLevel::Info by {
                if i < n {
                    assert(front[i].level == MessageLevel::Info);
                }
            }
        }
        assert(alerts[n] == alerts.last());
    }
}

/// One alert goes out as it is, several as the first of them with how many more there were, and none
/// where there was none.
pub proof fn a_burst_goes_out_as_one(alerts: Seq<Alert>, r: Option<Alert>)
    requires
        is_collapse(alerts, r),
    ensures
        (r is None) == (alerts.len() == 0),
        alerts.len() >= 1 ==> r->0.title@ == alerts[0].title@ && alerts[0].body@.is_prefix_of(
            r->0.body@,
        ),
        alerts.len() == 1 ==> r->0.body@ == alerts[0].body@ && r->0.level == alerts[0].level,
        alerts.len() >= 2 ==> r->0.body@ == alerts[0].body@ + " \u{2014} and "@ + decimal(
            (alerts.len() - 1) as nat,
        ) + " more"@,
{
    if alerts.len() >= 1 {
        assert(r->0.body@.subrange(0, alerts[0].body@.len() as int) =~= alerts[0].body@);
    }
}

/// Between the quotes of a script for a Mac no quote and no back-slash stands but behind a back-slash
/// of its own, and everything else stands as it was said.
pub proof fn a_quote_is_escaped_and_nothing_else_is(a: Seq<char>, c: char, b: Seq<char>)
    ensures
        c == '"' || c == '\\' ==> slashed(a + seq![c] + b) == slashed(a) + seq!['\\', c] + slashed(b),
        c != '"' && c != '\\' ==> slashed(a + seq![c] + b) == slashed(a) + seq![c] + slashed(b),
        c == '\'' ==> doubled(a + seq![c] + b) == doubled(a) + seq![c, c] + doubled(b),
        c != '\'' ==> doubled(a + seq![c] + b) == doubled(a) + seq![c] + doubled(b),
        slashed(Seq::<char>::empty()).len() == 0,
        doubled(Seq::<char>::empty()).len() == 0,
    decreases b.len(),
{
    let s = a + seq![c] + b;
    if b.len() == 0 {
        assert(s.drop_last() =~= a);
        assert(slashed(s) =~= slashed(a) + (if c == '"' || c == '\\' {
            seq!['\\', c]
        } else {
            seq![c]
        }) + slashed(b));
        assert(doubled(s) =~= doubled(a) + (if c == '\'' {
            seq![c, c]
        } else {
            seq![c]
        }) + doubled(b));
    } else {
        a_quote_is_escaped_and_nothing_else_is(a, c, b.drop_last());
        assert(s.drop_last() =~= a + seq![c] + b.drop_last());
        assert(s.last() == b.last());
        assert(slashed(s) =~= slashed(a) + (if c == '"' || c == '\\' {
            seq!['\\', c]
        } else {
            seq![c]
        }) + slashed(b));
        assert(doubled(s) =~= doubled(a) + (if c == '\'' {
            seq![c, c]
        } else {
            seq![c]
        }) + doubled(b));
    }
}

/// What is put between quotes stands between two of them.
pub proof fn what_is_quoted_stands_between_quotes(mark: char, s: Seq<char>)
    ensures
        between(mark, s).len() == s.len() + 2,
        between(mark, s).first() == mark && between(mark, s).last() == mark,
        between(mark, s).subrange(1, s.len() as int + 1) == s,
{
    assert(between(mark, s).subrange(1, s.len() as int + 1) =~= s);
}

} // verus!
