//! Saying a text in somebody else's language.

use crate::notify::{Alert, MessageLevel};
use crate::text::{chars_of, texts};
use vstd::prelude::*;

verus! {

/// Text with a back-slash in front of every back-slash and every quote.
pub open spec fn slashed(s: Seq<char>) -> Seq<char>
    decreases s.len(),
{
    if s.len() == 0 {
        seq![]
    } else {
        let rest = slashed(s.drop_last());
        if s.last() == '\\' || s.last() == '"' {
            rest.push('\\').push(s.last())
        } else {
            rest.push(s.last())
        }
    }
}

/// Text with every single quote doubled.
pub open spec fn doubled(s: Seq<char>) -> Seq<char>
    decreases s.len(),
{
    if s.len() == 0 {
        seq![]
    } else {
        let rest = doubled(s.drop_last());
        if s.last() == '\'' {
            rest.push('\'').push('\'')
        } else {
            rest.push(s.last())
        }
    }
}

/// Text between two of the same mark.
pub open spec fn between(mark: char, s: Seq<char>) -> Seq<char> {
    seq![mark] + s + seq![mark]
}

/// A string literal AppleScript will accept.
pub fn applescript_string(s: &str) -> (r: String)
    ensures
        r@ == between('"', slashed(s@)),
{
    let chars = chars_of(s);
    let mut r = String::new();
    r.push('"');
    let mut i: usize = 0;
    assert(s@.take(0) =~= seq![]);
    assert(r@ =~= seq!['"'] + slashed(s@.take(0)));
    while i < chars.len()
        invariant
            i <= chars@.len(),
            chars@ == s@,
            r@ == seq!['"'] + slashed(s@.take(i as int)),
        decreases chars@.len() - i,
    {
        let c = chars[i];
        let ghost upto = s@.take(i + 1);
        assert(upto.drop_last() =~= s@.take(i as int));
        if c == '\\' || c == '"' {
            r.push('\\');
        }
        r.push(c);
        i = i + 1;
        assert(r@ =~= seq!['"'] + slashed(upto));
    }
    assert(s@.take(i as int) =~= s@);
    r.push('"');
    assert(r@ =~= between('"', slashed(s@)));
    r
}

/// A single-quoted PowerShell literal, where the only escape is a doubled quote.
pub fn powershell_string(s: &str) -> (r: String)
    ensures
        r@ == between('\'', doubled(s@)),
{
    let chars = chars_of(s);
    let mut r = String::new();
    r.push('\'');
    let mut i: usize = 0;
    assert(s@.take(0) =~= seq![]);
    assert(r@ =~= seq!['\''] + doubled(s@.take(0)));
    while i < chars.len()
        invariant
            i <= chars@.len(),
            chars@ == s@,
            r@ == seq!['\''] + doubled(s@.take(i as int)),
        decreases chars@.len() - i,
    {
        let c = chars[i];
        let ghost upto = s@.take(i + 1);
        assert(upto.drop_last() =~= s@.take(i as int));
        if c == '\'' {
            r.push('\'');
        }
        r.push(c);
        i = i + 1;
        assert(r@ =~= seq!['\''] + doubled(upto));
    }
    assert(s@.take(i as int) =~= s@);
    r.push('\'');
    assert(r@ =~= between('\'', doubled(s@)));
    r
}

/// What AppleScript reads between the quotes: a back-slash stands for whatever follows it.
pub open spec fn unslashed(s: Seq<char>) -> Seq<char>
    decreases s.len(),
{
    if s.len() == 0 {
        seq![]
    } else if s[0] == '\\' && s.len() > 1 {
        seq![s[1]] + unslashed(s.skip(2))
    } else {
        seq![s[0]] + unslashed(s.skip(1))
    }
}

/// What PowerShell reads between the quotes: two quotes stand for one.
pub open spec fn undoubled(s: Seq<char>) -> Seq<char>
    decreases s.len(),
{
    if s.len() == 0 {
        seq![]
    } else if s[0] == '\'' && s.len() > 1 {
        seq![s[1]] + undoubled(s.skip(2))
    } else {
        seq![s[0]] + undoubled(s.skip(1))
    }
}

proof fn lemma_slashed_front(s: Seq<char>)
    requires
        s.len() > 0,
    ensures
        slashed(s) == (if s[0] == '\\' || s[0] == '"' {
            seq!['\\', s[0]]
        } else {
            seq![s[0]]
        }) + slashed(s.skip(1)),
    decreases s.len(),
{
    let head = if s[0] == '\\' || s[0] == '"' {
        seq!['\\', s[0]]
    } else {
        seq![s[0]]
    };
    if s.len() == 1 {
        assert(s.drop_last() =~= seq![]);
        assert(s.skip(1) =~= seq![]);
        assert(slashed(s.drop_last()) =~= seq![]);
        assert(slashed(s) =~= head + slashed(s.skip(1)));
    } else {
        lemma_slashed_front(s.drop_last());
        assert(s.drop_last().skip(1) =~= s.skip(1).drop_last());
        assert(slashed(s) =~= head + slashed(s.skip(1)));
    }
}

proof fn lemma_doubled_front(s: Seq<char>)
    requires
        s.len() > 0,
    ensures
        doubled(s) == (if s[0] == '\'' {
            seq!['\'', '\'']
        } else {
            seq![s[0]]
        }) + doubled(s.skip(1)),
    decreases s.len(),
{
    let head = if s[0] == '\'' {
        seq!['\'', '\'']
    } else {
        seq![s[0]]
    };
    if s.len() == 1 {
        assert(s.drop_last() =~= seq![]);
        assert(s.skip(1) =~= seq![]);
        assert(doubled(s.drop_last()) =~= seq![]);
        assert(doubled(s) =~= head + doubled(s.skip(1)));
    } else {
        lemma_doubled_front(s.drop_last());
        assert(s.drop_last().skip(1) =~= s.skip(1).drop_last());
        assert(doubled(s) =~= head + doubled(s.skip(1)));
    }
}

/// Quoting survives a message that contains quotes: what AppleScript reads is what was said.
pub proof fn applescript_reads_what_was_said(s: Seq<char>)
    ensures
        unslashed(slashed(s)) == s,
    decreases s.len(),
{
    if s.len() == 0 {
        assert(unslashed(slashed(s)) =~= s);
    } else {
        lemma_slashed_front(s);
        applescript_reads_what_was_said(s.skip(1));
        let q = slashed(s);
        let rest = slashed(s.skip(1));
        if s[0] == '\\' || s[0] == '"' {
            assert(q[0] == '\\' && q[1] == s[0]);
            assert(q.skip(2) =~= rest);
        } else {
            assert(q[0] == s[0]);
            assert(q.skip(1) =~= rest);
        }
        assert(seq![s[0]] + s.skip(1) =~= s);
    }
}

/// Quoting survives a message that contains quotes: what PowerShell reads is what was said.
pub proof fn powershell_reads_what_was_said(s: Seq<char>)
    ensures
        undoubled(doubled(s)) == s,
    decreases s.len(),
{
    if s.len() == 0 {
        assert(undoubled(doubled(s)) =~= s);
    } else {
        lemma_doubled_front(s);
        powershell_reads_what_was_said(s.skip(1));
        let q = doubled(s);
        let rest = doubled(s.skip(1));
        if s[0] == '\'' {
            assert(q[0] == '\'' && q[1] == s[0]);
            assert(q.skip(2) =~= rest);
        } else {
            assert(q[0] == s[0]);
            assert(q.skip(1) =~= rest);
        }
        assert(seq![s[0]] + s.skip(1) =~= s);
    }
}

/// What comes before the title in the script that raises a toast on Windows.
pub const TOAST_HEAD: &'static str =
    "[Windows.UI.Notifications.ToastNotificationManager, Windows.UI.Notifications, ContentType = WindowsRuntime] > $null; $t = [Windows.UI.Notifications.ToastNotificationManager]::GetTemplateContent(0); $t.GetElementsByTagName('text').Item(0).AppendChild($t.CreateTextNode(";

/// What comes between the title and the body.
pub const TOAST_MIDDLE: &'static str =
    ")) > $null; $t.GetElementsByTagName('text').Item(1).AppendChild($t.CreateTextNode(";

/// What comes after the body.
pub const TOAST_TAIL: &'static str =
    ")) > $null; [Windows.UI.Notifications.ToastNotificationManager]::CreateToastNotifier('neosh').Show([Windows.UI.Notifications.ToastNotification]::new($t))";

/// A program and what it is called with.
pub struct Command {
    pub program: &'static str,
    pub args: Vec<String>,
}

impl Command {
    /// Whether this calls `program` with `args`.
    pub open spec fn calls(self, program: Seq<char>, args: Seq<Seq<char>>) -> bool {
        self.program@ == program && texts(self.args@) == args
    }
}

/// The script that raises a notification on a Mac.
pub open spec fn mac_script(title: Seq<char>, body: Seq<char>) -> Seq<char> {
    "display notification "@ + between('"', slashed(body)) + " with title "@ + between(
        '"',
        slashed(title),
    )
}

/// The script that raises a toast on Windows.
pub open spec fn toast_script(title: Seq<char>, body: Seq<char>) -> Seq<char> {
    TOAST_HEAD@ + between('\'', doubled(title)) + TOAST_MIDDLE@ + between('\'', doubled(body))
        + TOAST_TAIL@
}

fn command(program: &'static str, args: Vec<&str>) -> (r: Command)
    ensures
        r.program == program,
        texts(r.args@) == args@.map_values(|a: &str| a@),
{
    let mut owned: Vec<String> = Vec::new();
    let mut i: usize = 0;
    while i < args.len()
        invariant
            i <= args@.len(),
            owned@.len() == i,
            forall|j: int| 0 <= j < i ==> (#[trigger] owned@[j])@ == args@[j]@,
        decreases args@.len() - i,
    {
        owned.push(args[i].to_owned());
        i = i + 1;
    }
    assert(texts(owned@) =~= args@.map_values(|a: &str| a@));
    Command { program, args: owned }
}

/// What to try, in turn, to raise a notification through the platform's own machinery. Which of
/// these exists is a property of the machine rather than of the operating system.
///
/// Nothing here is a shell, so nothing needs quoting but what goes into a script.
pub fn desktop_commands(alert: &Alert) -> (r: Vec<Command>)
    ensures
        r@.len() == 4,
        r@[0].calls(
            "notify-send"@,
            seq![
                "-a"@,
                "neosh"@,
                "-u"@,
                if alert.level == MessageLevel::Error {
                    "critical"@
                } else {
                    "normal"@
                },
                alert.title@,
                alert.body@,
            ],
        ),
        r@[1].calls("osascript"@, seq!["-e"@, mac_script(alert.title@, alert.body@)]),
        r@[2].calls(
            "terminal-notifier"@,
            seq!["-title"@, alert.title@, "-message"@, alert.body@],
        ),
        r@[3].calls(
            "powershell"@,
            seq![
                "-NoProfile"@,
                "-NonInteractive"@,
                "-Command"@,
                toast_script(alert.title@, alert.body@),
            ],
        ),
{
    let title = alert.title.as_str();
    let body = alert.body.as_str();
    let mut mac = "display notification ".to_owned();
    mac.push_str(applescript_string(body).as_str());
    mac.push_str(" with title ");
    mac.push_str(applescript_string(title).as_str());
    let mut toast = TOAST_HEAD.to_owned();
    toast.push_str(powershell_string(title).as_str());
    toast.push_str(TOAST_MIDDLE);
    toast.push_str(powershell_string(body).as_str());
    toast.push_str(TOAST_TAIL);
    let urgency = match alert.level {
        MessageLevel::Error => "critical",
        _ => "normal",
    };
    let a = command("notify-send", vec!["-a", "neosh", "-u", urgency, title, body]);
    let b = command("osascript", vec!["-e", mac.as_str()]);
    let c = command("terminal-notifier", vec!["-title", title, "-message", body]);
    let d = command(
        "powershell",
        vec!["-NoProfile", "-NonInteractive", "-Command", toast.as_str()],
    );
    proof {
        assert(texts(a.args@) =~= seq!["-a"@, "neosh"@, "-u"@, urgency@, title@, body@]);
        assert(texts(b.args@) =~= seq!["-e"@, mac_script(title@, body@)]);
        assert(texts(c.args@) =~= seq!["-title"@, title@, "-message"@, body@]);
        assert(texts(d.args@) =~= seq![
            "-NoProfile"@,
            "-NonInteractive"@,
            "-Command"@,
            toast_script(title@, body@),
        ]);
    }
    vec![a, b, c, d]
}

} // verus!
