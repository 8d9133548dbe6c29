//! The working agreement: what this user wants spoken, and how.
//!
//! The agreement lives in a file next to the groups, one per machine, and
//! every agent reads it with a shell command rather than recalling it:
//! reading is idempotent, remembering is not. Nobody edits it by hand; an
//! agent records a rule when the user says something that implies one, and
//! reads the new state back to them.
//!
//! Lists rather than prose, deliberately: preferences change by gaining a
//! rule or losing one, and as a list "stop telling me about builds" is a
//! removal with nothing else at risk.
//!
//! Everything here works on an [`Agreement`] in memory; reading and writing
//! the file, under its lock, is the caller's.

use vstd::prelude::*;

use vstd::string::StrSliceExecFns;

use crate::strs::{
    joined, push_joined,
    chars_of, dec, eq_ignore_case, is_ws, lower_seq, lowered, owned, push_chars, push_dec,
    push_str, same, same_ignoring_case, slice, trim, trim_start, trimmed, trimmed_start,
    char_is_ws,
};

verus! {

/// One rule, and where it came from.
///
/// Under this design nobody opens the file, so recording which agent added a
/// rule and when makes "why does it keep doing that?" a question with an
/// answer.
#[derive(Debug, Clone, PartialEq, Eq)]
pub struct Rule {
    /// What the user asked for, in their terms.
    pub rule: String,
    /// The agent that recorded it.
    pub by: String,
    /// Unix seconds when it was recorded.
    pub at: u64,
}

/// Where a response goes: the terminal, the voice, or both.
#[derive(Debug, Clone, Copy, PartialEq, Eq, Structural)]
pub enum Output {
    /// Everything written, nothing spoken. Enforced: speaking is refused.
    Terminal,
    /// Full detail written, a short summary spoken. The common case.
    Brief,
    /// The same text in both places.
    Full,
    /// Spoken, with the terminal kept minimal.
    Speech,
}

/// What to call a mode in a sentence.
pub open spec fn output_name(o: Output) -> Seq<char> {
    match o {
        Output::Terminal => "terminal"@,
        Output::Brief => "brief"@,
        Output::Full => "full"@,
        Output::Speech => "speech"@,
    }
}

/// What a mode means, in a clause.
pub open spec fn output_meaning(o: Output) -> Seq<char> {
    match o {
        Output::Terminal => "write everything, speak nothing"@,
        Output::Brief => "write the detail, speak a short summary of it"@,
        Output::Full => "write it and speak the same text"@,
        Output::Speech => "speak everything, keep the terminal minimal"@,
    }
}

/// How long a spoken message should be; only `brief` needs a number.
pub open spec fn spoken_length_text(o: Output) -> Option<Seq<char>> {
    match o {
        Output::Brief => Some(
            "about forty words — a listener cannot skim, scroll back or re-read, so say the point and leave the detail in the terminal"@,
        ),
        _ => None,
    }
}

/// The list of modes, offered when a word is not one of them.
pub open spec fn not_a_mode(word: Seq<char>) -> Seq<char> {
    "'"@ + word
        + "' is not an output mode. Use terminal (write only), brief (write it all, say a summary), full (say the same text), or speech (say everything, keep the terminal quiet)"@
}

/// A mode read from text: trimmed, any ASCII case.
pub open spec fn parse_output(s: Seq<char>) -> Result<Output, Seq<char>> {
    let t = lower_seq(trim(s));
    if t == "terminal"@ {
        Ok(Output::Terminal)
    } else if t == "brief"@ {
        Ok(Output::Brief)
    } else if t == "full"@ {
        Ok(Output::Full)
    } else if t == "speech"@ {
        Ok(Output::Speech)
    } else {
        Err(not_a_mode(t))
    }
}

impl Output {
    /// What to call it in a sentence.
    pub fn as_str(self) -> (r: &'static str)
        ensures
            r@ == output_name(self),
    {
        match self {
            Output::Terminal => "terminal",
            Output::Brief => "brief",
            Output::Full => "full",
            Output::Speech => "speech",
        }
    }

    /// Read one, or say what the alternatives are.
    ///
    /// The error lists them because the caller is usually an agent acting on
    /// something a person said, and "invalid value" leaves it guessing at a
    /// vocabulary it was never given.
    pub fn parse(s: &str) -> (r: Result<Output, String>)
        ensures
            match (r, parse_output(s@)) {
                (Ok(o), Ok(p)) => o == p,
                (Err(m), Err(p)) => m@ == p,
                _ => false,
            },
    {
        let raw = chars_of(s);
        let t = lowered(&trimmed(&raw));
        if same(&t, &chars_of("terminal")) {
            Ok(Output::Terminal)
        } else if same(&t, &chars_of("brief")) {
            Ok(Output::Brief)
        } else if same(&t, &chars_of("full")) {
            Ok(Output::Full)
        } else if same(&t, &chars_of("speech")) {
            Ok(Output::Speech)
        } else {
            let mut m = owned("'");
            push_chars(&mut m, &t);
            push_str(
                &mut m,
                "' is not an output mode. Use terminal (write only), brief (write it all, say a summary), full (say the same text), or speech (say everything, keep the terminal quiet)",
            );
            Err(m)
        }
    }

    /// How long a spoken message should be under this mode.
    ///
    /// "Length is your judgement" gives an agent nothing to judge against,
    /// because it has no sense of how long two hundred words is aloud.
    pub fn spoken_length(self) -> (r: Option<&'static str>)
        ensures
            match (r, spoken_length_text(self)) {
                (Some(x), Some(y)) => x@ == y,
                (None, None) => true,
                _ => false,
            },
    {
        match self {
            Output::Brief => Some(
                "about forty words — a listener cannot skim, scroll back or re-read, so say the point and leave the detail in the terminal",
            ),
            _ => None,
        }
    }
}

/// What a mode means, in a clause.
fn describe(mode: Output) -> (r: &'static str)
    ensures
        r@ == output_meaning(mode),
{
    match mode {
        Output::Terminal => "write everything, speak nothing",
        Output::Brief => "write the detail, speak a short summary of it",
        Output::Full => "write it and speak the same text",
        Output::Speech => "speak everything, keep the terminal minimal",
    }
}

/// Everything this machine has been told about how to speak to its owner.
#[derive(Debug, Clone)]
pub struct Agreement {
    /// What to call the user when speaking to them.
    pub address_me_as: Option<String>,
    /// Where a response goes.
    pub output: Option<Output>,
    /// Moments worth speaking about at all.
    pub speak_when: Vec<Rule>,
    /// Things never to say aloud. Advisory: a substring match cannot check a
    /// category, so nothing here enforces it.
    pub never_speak: Vec<Rule>,
}

/// Whether anything has ever been recorded.
pub open spec fn is_configured(a: Agreement) -> bool {
    a.address_me_as is Some || a.output is Some || a.speak_when@.len() > 0 || a.never_speak@.len() > 0
}

/// The mode in force: the one chosen, or `brief`.
pub open spec fn mode_of(a: Agreement) -> Output {
    match a.output {
        Some(o) => o,
        None => Output::Brief,
    }
}

impl Default for Agreement {
    fn default() -> (r: Self)
        ensures
            r.address_me_as is None,
            r.output is None,
            r.speak_when@.len() == 0,
            r.never_speak@.len() == 0,
    {
        Agreement { address_me_as: None, output: None, speak_when: Vec::new(), never_speak: Vec::new() }
    }
}

impl Agreement {
    /// Whether anything has ever been recorded.
    ///
    /// An agent needs to tell "this machine is configured" from "nobody has
    /// said anything yet", and it cannot infer that from an empty list.
    pub fn configured(&self) -> (r: bool)
        ensures
            r == is_configured(*self),
    {
        self.address_me_as.is_some() || self.output.is_some() || self.speak_when.len() > 0
            || self.never_speak.len() > 0
    }

    /// The mode, or the default when nobody has chosen one.
    pub fn output(&self) -> (r: Output)
        ensures
            r == mode_of(*self),
    {
        match self.output {
            Some(o) => o,
            None => Output::Brief,
        }
    }
}

/// Which list a rule belongs to.
#[derive(Debug, Clone, Copy, PartialEq, Eq, Structural)]
pub enum List {
    /// Moments worth speaking about.
    SpeakWhen,
    /// Things never to say aloud.
    NeverSpeak,
}

/// A list's name on the command line.
pub open spec fn list_name(l: List) -> Seq<char> {
    match l {
        List::SpeakWhen => "speak-when"@,
        List::NeverSpeak => "never-speak"@,
    }
}

/// The rules a list holds.
pub open spec fn rules_of(a: Agreement, l: List) -> Seq<Rule> {
    match l {
        List::SpeakWhen => a.speak_when@,
        List::NeverSpeak => a.never_speak@,
    }
}

/// `a` with one list's rules replaced and everything else as it was.
pub open spec fn with_rules(before: Agreement, after: Agreement, l: List, rules: Seq<Rule>) -> bool {
    &&& rules_of(after, l) == rules
    &&& after.address_me_as == before.address_me_as
    &&& after.output == before.output
    &&& match l {
        List::SpeakWhen => after.never_speak@ == before.never_speak@,
        List::NeverSpeak => after.speak_when@ == before.speak_when@,
    }
}

impl List {
    fn name(self) -> (r: &'static str)
        ensures
            r@ == list_name(self),
    {
        match self {
            List::SpeakWhen => "speak-when",
            List::NeverSpeak => "never-speak",
        }
    }
}

/// A scalar the user can state outright.
#[derive(Debug, Clone, Copy, PartialEq, Eq, Structural)]
pub enum Field {
    /// What to call the user.
    AddressMeAs,
    /// Where responses go.
    Output,
}

// ------------------------------------------------------------ ages

/// `n / d` rounded to the nearest whole number, halves up.
pub open spec fn rounded(n: nat, d: nat) -> nat {
    n / d + if 2 * (n % d) >= d {
        1nat
    } else {
        0nat
    }
}

/// How long ago `at` was when it is `now`, said the way a person would.
///
/// Rounded, not truncated: something added twenty-three hours ago is
/// "yesterday" to everyone except a clock. A clock that reads earlier than
/// `at` counts as no time at all.
pub open spec fn age_text(at: u64, now: u64) -> Seq<char> {
    if at == 0 {
        "unknown"@
    } else {
        let secs: nat = if now >= at {
            (now - at) as nat
        } else {
            0
        };
        let days = rounded(secs, 86400);
        if days == 0 {
            "today"@
        } else if days == 1 {
            "yesterday"@
        } else if days < 14 {
            dec(days) + " days ago"@
        } else if days < 60 {
            dec(rounded(days, 7)) + " weeks ago"@
        } else {
            dec(rounded(days, 30)) + " months ago"@
        }
    }
}

fn round_div(n: u64, d: u64) -> (r: u64)
    requires
        d >= 2,
    ensures
        r == rounded(n as nat, d as nat),
{
    let q = n / d;
    let m = n % d;
    if m >= d - m {
        assert(q < 0xffff_ffff_ffff_ffffu64) by (nonlinear_arith)
            requires
                q == n / d,
                d >= 2,
                n <= 0xffff_ffff_ffff_ffffu64,
        ;
        q + 1
    } else {
        q
    }
}

/// How long ago `at` was, as of `now`, said the way a person would.
pub fn age(at: u64, now: u64) -> (r: String)
    ensures
        r@ == age_text(at, now),
{
    if at == 0 {
        return owned("unknown");
    }
    let secs = if now >= at {
        now - at
    } else {
        0
    };
    let days = round_div(secs, 86400);
    if days == 0 {
        owned("today")
    } else if days == 1 {
        owned("yesterday")
    } else if days < 14 {
        let mut s = String::new();
        push_dec(&mut s, days);
        push_str(&mut s, " days ago");
        s
    } else if days < 60 {
        let mut s = String::new();
        push_dec(&mut s, round_div(days, 7));
        push_str(&mut s, " weeks ago");
        s
    } else {
        let mut s = String::new();
        push_dec(&mut s, round_div(days, 30));
        push_str(&mut s, " months ago");
        s
    }
}

// ------------------------------------------------------------ changes

/// `after` is `before` with one more rule on the end.
pub open spec fn appended(before: Seq<Rule>, after: Seq<Rule>, rule: Seq<char>, by: Seq<char>, at: u64) -> bool {
    &&& after.len() == before.len() + 1
    &&& after.take(before.len() as int) == before
    &&& after.last().rule@ == rule
    &&& after.last().by@ == by
    &&& after.last().at == at
}

/// Whether a list already says this, ignoring ASCII case.
pub open spec fn already_says(rules: Seq<Rule>, text: Seq<char>) -> bool {
    exists|i: int| 0 <= i < rules.len() && eq_ignore_case((#[trigger] rules[i]).rule@, text)
}

fn says(rules: &Vec<Rule>, text: &Vec<char>) -> (r: bool)
    ensures
        r == already_says(rules@, text@),
{
    let mut i: usize = 0;
    while i < rules.len()
        invariant
            i <= rules@.len(),
            forall|j: int| 0 <= j < i ==> !eq_ignore_case((#[trigger] rules@[j]).rule@, text@),
        decreases rules.len() - i,
    {
        let r = chars_of(rules[i].rule.as_str());
        if same_ignoring_case(&r, text) {
            return true;
        }
        i += 1;
    }
    false
}

/// Add a rule recorded by `by` at `at`.
///
/// Trimmed, refused when empty, and refused when the list already says it
/// in any case — a second copy would read back as two rules.
pub fn add(a: &mut Agreement, list: List, text: &str, by: &str, at: u64) -> (r: Result<(), String>)
    ensures
        ({
            let t = trim(text@);
            let rules = rules_of(*old(a), list);
            &&& t.len() == 0 ==> (r matches Err(m) && m@ == "a rule needs some words in it"@)
            &&& t.len() > 0 && already_says(rules, t) ==> (r matches Err(m) && m@ == list_name(list)
                + " already says that"@)
            &&& t.len() > 0 && !already_says(rules, t) ==> r is Ok
            &&& r is Err ==> *final(a) == *old(a)
            &&& r is Ok ==> with_rules(*old(a), *final(a), list, rules_of(*final(a), list))
                && appended(rules, rules_of(*final(a), list), t, by@, at)
        }),
{
    let raw = chars_of(text);
    let t = trimmed(&raw);
    if t.len() == 0 {
        return Err(owned("a rule needs some words in it"));
    }
    let dup = match list {
        List::SpeakWhen => says(&a.speak_when, &t),
        List::NeverSpeak => says(&a.never_speak, &t),
    };
    if dup {
        let mut m = owned(list.name());
        push_str(&mut m, " already says that");
        return Err(m);
    }
    let rule = Rule { rule: string_of_chars(&t), by: owned(by), at };
    match list {
        List::SpeakWhen => {
            a.speak_when.push(rule);
            assert(a.speak_when@.take(old(a).speak_when@.len() as int) =~= old(a).speak_when@);
        },
        List::NeverSpeak => {
            a.never_speak.push(rule);
            assert(a.never_speak@.take(old(a).never_speak@.len() as int) =~= old(a).never_speak@);
        },
    }
    Ok(())
}

fn string_of_chars(v: &Vec<char>) -> (s: String)
    ensures
        s@ == v@,
{
    let mut s = String::new();
    push_chars(&mut s, v);
    s
}

/// Why there is no rule at a one-based index.
pub open spec fn no_such_rule(list: List, len: nat, index: nat) -> Seq<char> {
    list_name(list) + " has "@ + dec(len) + " rule(s); there is no "@ + dec(index)
}

/// Drop the rule at a one-based index, as the read-back numbers them.
///
/// One-based because the number the user is told is the number they say
/// back.
pub fn remove(a: &mut Agreement, list: List, index: usize) -> (r: Result<(), String>)
    ensures
        ({
            let rules = rules_of(*old(a), list);
            &&& (index == 0 || index > rules.len()) ==> (r matches Err(m) && m@ == no_such_rule(
                list,
                rules.len(),
                index as nat,
            ))
            &&& r is Err ==> *final(a) == *old(a)
            &&& 0 < index <= rules.len() ==> r is Ok && with_rules(
                *old(a),
                *final(a),
                list,
                rules.remove(index - 1),
            )
        }),
{
    let len = match list {
        List::SpeakWhen => a.speak_when.len(),
        List::NeverSpeak => a.never_speak.len(),
    };
    if index == 0 || index > len {
        let mut m = owned(list.name());
        push_str(&mut m, " has ");
        push_dec(&mut m, len as u64);
        push_str(&mut m, " rule(s); there is no ");
        push_dec(&mut m, index as u64);
        return Err(m);
    }
    match list {
        List::SpeakWhen => {
            a.speak_when.remove(index - 1);
        },
        List::NeverSpeak => {
            a.never_speak.remove(index - 1);
        },
    }
    Ok(())
}

/// Set a scalar.
pub fn set(a: &mut Agreement, field: Field, value: &str) -> (r: Result<(), String>)
    ensures
        r is Err ==> *final(a) == *old(a),
        r is Ok ==> final(a).speak_when@ == old(a).speak_when@ && final(a).never_speak@ == old(a).never_speak@,
        field == Field::AddressMeAs ==> {
            let name = trim(value@);
            &&& name.len() == 0 ==> (r matches Err(m) && m@ == "a name needs some letters in it"@)
            &&& name.len() > 0 ==> r is Ok && final(a).output == old(a).output && (final(a).address_me_as matches Some(n) && n@ == name)
        },
        field == Field::Output ==> match parse_output(value@) {
            Ok(o) => r is Ok && final(a).output == Some(o) && final(a).address_me_as == old(a).address_me_as,
            Err(m) => r matches Err(e) && e@ == m,
        },
{
    match field {
        Field::AddressMeAs => {
            let raw = chars_of(value);
            let name = trimmed(&raw);
            if name.len() == 0 {
                return Err(owned("a name needs some letters in it"));
            }
            a.address_me_as = Some(string_of_chars(&name));
            Ok(())
        },
        Field::Output => {
            match Output::parse(value) {
                Ok(o) => {
                    a.output = Some(o);
                    Ok(())
                },
                Err(m) => Err(m),
            }
        },
    }
}

// ------------------------------------------------------------ rendering

/// What `render` says of a machine nobody has configured.
pub open spec fn nothing_recorded() -> Seq<char> {
    "Nothing recorded yet on this machine. Speak when a long task finishes and they have walked away, when a question blocks you, or when something fails they asked to hear about. Say what you are doing in one sentence and let the first correction become the first rule — do not interview them.\n"@
}

/// Who recorded a rule, for the read-back.
pub open spec fn recorded_by(r: Rule) -> Seq<char> {
    if r.by@.len() == 0 {
        "unknown"@
    } else {
        r.by@
    }
}

/// The read-back line of the rule numbered `n`.
pub open spec fn rule_line(r: Rule, n: nat, now: u64) -> Seq<char> {
    "  "@ + dec(n) + ". "@ + r.rule@ + "   ("@ + recorded_by(r) + ", "@ + age_text(r.at, now) + ")\n"@
}

/// The lines of the first `k` rules.
pub open spec fn rule_lines(rules: Seq<Rule>, now: u64, k: nat) -> Seq<char>
    decreases k,
{
    if k == 0 {
        Seq::empty()
    } else {
        rule_lines(rules, now, (k - 1) as nat) + rule_line(rules[k - 1], k, now)
    }
}

/// A titled list, or nothing when it is empty.
pub open spec fn section(title: Seq<char>, rules: Seq<Rule>, now: u64) -> Seq<char> {
    if rules.len() == 0 {
        Seq::empty()
    } else {
        "\n"@ + title + "\n"@ + rule_lines(rules, now, rules.len())
    }
}

/// The agreement as `render` writes it at `now`.
pub open spec fn render_text(a: Agreement, now: u64) -> Seq<char> {
    if !is_configured(a) {
        nothing_recorded()
    } else {
        let m = mode_of(a);
        (match a.address_me_as {
            Some(n) => "Call them: "@ + n@ + "\n"@,
            None => Seq::empty(),
        }) + "Output: "@ + output_name(m) + " — "@ + output_meaning(m) + "\n"@ + (match spoken_length_text(m) {
            Some(l) => "Spoken length: "@ + l + "\n"@,
            None => Seq::empty(),
        }) + section("Speak when"@, a.speak_when@, now) + section("Never speak"@, a.never_speak@, now)
    }
}

fn line_of(r: &Rule, n: u64, now: u64) -> (s: String)
    ensures
        s@ == rule_line(*r, n as nat, now),
{
    let mut s = owned("  ");
    push_dec(&mut s, n);
    push_str(&mut s, ". ");
    push_str(&mut s, r.rule.as_str());
    push_str(&mut s, "   (");
    if r.by.as_str().unicode_len() == 0 {
        push_str(&mut s, "unknown");
    } else {
        push_str(&mut s, r.by.as_str());
    }
    push_str(&mut s, ", ");
    let when = age(r.at, now);
    push_str(&mut s, when.as_str());
    push_str(&mut s, ")\n");
    assert(s@ =~= rule_line(*r, n as nat, now));
    s
}

fn push_section(out: &mut String, title: &str, rules: &Vec<Rule>, now: u64)
    ensures
        final(out)@ == old(out)@ + section(title@, rules@, now),
{
    if rules.len() == 0 {
        assert(old(out)@ + Seq::<char>::empty() =~= old(out)@);
        return;
    }
    push_str(out, "\n");
    push_str(out, title);
    push_str(out, "\n");
    let ghost head = out@;
    let mut i: usize = 0;
    while i < rules.len()
        invariant
            i <= rules@.len(),
            out@ == head + rule_lines(rules@, now, i as nat),
        decreases rules.len() - i,
    {
        let line = line_of(&rules[i], (i + 1) as u64, now);
        push_str(out, line.as_str());
        proof {
            let k = (i + 1) as nat;
            assert(rule_lines(rules@, now, k) == rule_lines(rules@, now, i as nat) + rule_line(rules@[i as int], k, now));
            assert(out@ =~= head + rule_lines(rules@, now, k));
        }
        i += 1;
    }
    assert(out@ =~= old(out)@ + section(title@, rules@, now));
}

/// The agreement as of `now`, written for whoever reads it — usually an
/// agent. Under this design the read-back is the only way the user ever
/// sees what was stored.
pub fn render(a: &Agreement, now: u64) -> (r: String)
    ensures
        r@ == render_text(*a, now),
{
    if !a.configured() {
        return owned(
            "Nothing recorded yet on this machine. Speak when a long task finishes and they have walked away, when a question blocks you, or when something fails they asked to hear about. Say what you are doing in one sentence and let the first correction become the first rule — do not interview them.\n",
        );
    }
    let mut out = String::new();
    match &a.address_me_as {
        Some(name) => {
            push_str(&mut out, "Call them: ");
            push_str(&mut out, name.as_str());
            push_str(&mut out, "\n");
        },
        None => {},
    }
    let mode = a.output();
    push_str(&mut out, "Output: ");
    push_str(&mut out, mode.as_str());
    push_str(&mut out, " — ");
    push_str(&mut out, describe(mode));
    push_str(&mut out, "\n");
    match mode.spoken_length() {
        Some(l) => {
            push_str(&mut out, "Spoken length: ");
            push_str(&mut out, l);
            push_str(&mut out, "\n");
        },
        None => {},
    }
    push_section(&mut out, "Speak when", &a.speak_when, now);
    push_section(&mut out, "Never speak", &a.never_speak, now);
    assert(out@ =~= render_text(*a, now));
    out
}

/// Each rule's text.
pub open spec fn rule_texts(rules: Seq<Rule>) -> Seq<Seq<char>> {
    rules.map_values(|r: Rule| r.rule@)
}

/// The clauses of the one-line summary.
pub open spec fn brief_parts(a: Agreement) -> Seq<Seq<char>> {
    seq!["output "@ + output_name(mode_of(a))] + (match a.address_me_as {
        Some(n) => seq!["call them "@ + n@],
        None => Seq::empty(),
    }) + (if a.speak_when@.len() > 0 {
        seq!["speak when "@ + joined(rule_texts(a.speak_when@), "; "@)]
    } else {
        Seq::empty()
    }) + (if a.never_speak@.len() > 0 {
        seq!["never speak "@ + joined(rule_texts(a.never_speak@), "; "@)]
    } else {
        Seq::empty()
    })
}

/// The one-line summary, or nothing for a machine nobody has configured.
pub open spec fn brief_text(a: Agreement) -> Seq<char> {
    if !is_configured(a) {
        Seq::empty()
    } else {
        "clispeak agreement — "@ + joined(brief_parts(a), ", "@) + ". Full text: clispeak prefs"@
    }
}

fn rule_strings(rules: &Vec<Rule>) -> (r: Vec<String>)
    ensures
        r@.map_values(|p: String| p@) == rule_texts(rules@),
{
    let mut r: Vec<String> = Vec::new();
    let mut i: usize = 0;
    while i < rules.len()
        invariant
            i <= rules@.len(),
            r@.len() == i,
            forall|j: int| 0 <= j < i ==> (#[trigger] r@[j])@ == rules@[j].rule@,
        decreases rules.len() - i,
    {
        let text = owned(rules[i].rule.as_str());
        r.push(text);
        i += 1;
    }
    assert(r@.map_values(|p: String| p@) =~= rule_texts(rules@));
    r
}

fn listed(prefix: &str, rules: &Vec<Rule>) -> (r: String)
    ensures
        r@ == prefix@ + joined(rule_texts(rules@), "; "@),
{
    let mut s = owned(prefix);
    let texts = rule_strings(rules);
    push_joined(&mut s, &texts, "; ");
    s
}

/// One line, for a hook that runs on every prompt.
///
/// Empty when nothing is recorded: a hook that nags on every turn of a
/// machine nobody has configured is noise, and noise is how a hook gets
/// removed.
pub fn brief(a: &Agreement) -> (r: String)
    ensures
        r@ == brief_text(*a),
{
    if !a.configured() {
        return String::new();
    }
    let mut parts: Vec<String> = Vec::new();
    let mut first = owned("output ");
    push_str(&mut first, a.output().as_str());
    parts.push(first);
    match &a.address_me_as {
        Some(name) => {
            let mut p = owned("call them ");
            push_str(&mut p, name.as_str());
            parts.push(p);
        },
        None => {},
    }
    if a.speak_when.len() > 0 {
        parts.push(listed("speak when ", &a.speak_when));
    }
    if a.never_speak.len() > 0 {
        parts.push(listed("never speak ", &a.never_speak));
    }
    assert(parts@.map_values(|p: String| p@) =~= brief_parts(*a));
    let mut out = owned("clispeak agreement — ");
    push_joined(&mut out, &parts, ", ");
    push_str(&mut out, ". Full text: clispeak prefs");
    out
}

// ------------------------------------------------------------ enforcement

/// What was refused, in the caller's terms.
#[derive(Debug, Clone, Copy, PartialEq, Eq, Structural)]
pub enum Kind {
    /// The agreement says not to speak at all right now.
    Silenced,
    /// The text needs to open by naming the user.
    NeedsOpener,
}

/// Why a message was refused, and what to send instead.
#[derive(Debug, Clone)]
pub struct Refusal {
    /// Written for the agent that is about to read it.
    pub message: String,
    /// A line it can send verbatim, when one exists.
    pub instead: Option<String>,
    /// Which kind, so the caller maps it to an exit code.
    pub kind: Kind,
}

/// What a refusal under `terminal` says.
pub open spec fn silenced_message() -> Seq<char> {
    "error: your agreement says output is `terminal` — write this rather than speaking it.\n       Set by them, not by you: do not route around it to another device.\n       They can change it by saying so, which is `clispeak prefs set output brief`."@
}

/// What a refusal for a missing opener says.
pub open spec fn opener_message() -> Seq<char> {
    "error: your agreement says a message opens by naming them, and this one does not.\n       A voice from a pocket that does not say who it is forces them to guess."@
}

/// Whether the text opens by naming the user.
///
/// Case-insensitive, and the name has to be followed by punctuation, a space
/// or the end rather than merely appearing first — otherwise "Patrickson
/// said the build broke" would pass while naming somebody else entirely.
pub open spec fn opens_with_name(text: Seq<char>, name: Seq<char>) -> bool {
    let t = trim_start(text);
    let n = name.len() as int;
    &&& n <= t.len()
    &&& eq_ignore_case(t.take(n), name)
    &&& (n == t.len() || is_ws(t[n]) || t[n] == ',' || t[n] == ':' || t[n] == '!' || t[n] == '.')
}

fn opens_with(text: &str, name: &str) -> (r: bool)
    ensures
        r == opens_with_name(text@, name@),
{
    let raw = chars_of(text);
    let t = trimmed_start(&raw);
    let n = chars_of(name);
    if n.len() > t.len() {
        return false;
    }
    let head = slice(&t, 0, n.len());
    assert(head@ =~= t@.take(n@.len() as int));
    if !same_ignoring_case(&head, &n) {
        return false;
    }
    if n.len() == t.len() {
        return true;
    }
    let c = t[n.len()];
    char_is_ws(c) || c == ',' || c == ':' || c == '!' || c == '.'
}

/// Check a message against the two rules a machine can check.
///
/// Deliberately two: `never_speak` names categories a substring match
/// cannot check, and enforcing judgement produces a tool that refuses
/// correct messages. The opener is not asked for under `speech`, where the
/// agent talks continuously and a name on every utterance becomes a tic.
pub fn allows(a: &Agreement, text: &str) -> (r: Result<(), Refusal>)
    ensures
        mode_of(*a) == Output::Terminal ==> (r matches Err(f) && f.message@ == silenced_message()
            && f.instead is None && f.kind == Kind::Silenced),
        mode_of(*a) != Output::Terminal ==> match a.address_me_as {
            None => r is Ok,
            Some(name) => if mode_of(*a) == Output::Speech || opens_with_name(text@, name@) {
                r is Ok
            } else {
                r matches Err(f) && f.message@ == opener_message() && f.kind == Kind::NeedsOpener
                    && (f.instead matches Some(i) && i@ == name@ + ", this is <your name>. "@
                    + text@)
            },
        },
{
    if a.output() == Output::Terminal {
        return Err(
            Refusal {
                message: owned(
                    "error: your agreement says output is `terminal` — write this rather than speaking it.\n       Set by them, not by you: do not route around it to another device.\n       They can change it by saying so, which is `clispeak prefs set output brief`.",
                ),
                instead: None,
                kind: Kind::Silenced,
            },
        );
    }
    let name = match &a.address_me_as {
        Some(n) => n,
        None => {
            return Ok(());
        },
    };
    if a.output() == Output::Speech || opens_with(text, name.as_str()) {
        return Ok(());
    }
    let mut instead = owned(name.as_str());
    push_str(&mut instead, ", this is <your name>. ");
    push_str(&mut instead, text);
    Err(
        Refusal {
            message: owned(
                "error: your agreement says a message opens by naming them, and this one does not.\n       A voice from a pocket that does not say who it is forces them to guess.",
            ),
            instead: Some(instead),
            kind: Kind::NeedsOpener,
        },
    )
}

// ------------------------------------------------------------ laws

/// A rule added and then removed by the number the read-back gives it —
/// the last — leaves the list exactly as it was: a correction is a removal
/// and nothing else is at risk.
pub proof fn law_removing_what_was_added_restores_the_list(
    before: Seq<Rule>,
    after: Seq<Rule>,
    rule: Seq<char>,
    by: Seq<char>,
    at: u64,
)
    requires
        appended(before, after, rule, by, at),
    ensures
        after.remove(after.len() - 1) == before,
        rule_lines(after, 0, before.len()) == rule_lines(before, 0, before.len()),
{
    assert(after.remove(after.len() - 1) =~= after.take(before.len() as int));
    lemma_rule_lines_prefix(before, after, 0, before.len());
}

proof fn lemma_rule_lines_prefix(a: Seq<Rule>, b: Seq<Rule>, now: u64, k: nat)
    requires
        k <= a.len(),
        a.len() <= b.len(),
        b.take(a.len() as int) == a,
    ensures
        rule_lines(b, now, k) == rule_lines(a, now, k),
    decreases k,
{
    if k > 0 {
        assert(b[k - 1] == b.take(a.len() as int)[k - 1]);
        lemma_rule_lines_prefix(a, b, now, (k - 1) as nat);
    }
}

/// A message that begins by naming the user opens with their name: after
/// any leading whitespace, the name in any letter case, then the end of the
/// text, whitespace, `,`, `:`, `!` or `.`. So under brief and full output
/// `allows` lets it through.
pub proof fn law_a_message_naming_the_user_first_opens_with_them(
    lead: Seq<char>,
    spoken: Seq<char>,
    name: Seq<char>,
    after: Seq<char>,
)
    requires
        forall|i: int| 0 <= i < lead.len() ==> is_ws(#[trigger] lead[i]),
        spoken.len() > 0,
        !is_ws(spoken[0]),
        eq_ignore_case(spoken, name),
        after.len() == 0 || is_ws(after[0]) || after[0] == ',' || after[0] == ':' || after[0] == '!'
            || after[0] == '.',
    ensures
        opens_with_name(lead + spoken + after, name),
{
    let s = lead + spoken + after;
    assert(crate::strs::lower_seq(spoken).len() == spoken.len());
    assert(crate::strs::lower_seq(name).len() == name.len());
    assert forall|j: int| 0 <= j < lead.len() implies is_ws(#[trigger] s[j]) by {
        assert(s[j] == lead[j]);
    }
    assert(s[lead.len() as int] == spoken[0]);
    crate::strs::lemma_lead_ws_unique(s, lead.len() as int);
    let t = crate::strs::trim_start(s);
    assert(t =~= spoken + after);
    assert(t.take(name.len() as int) =~= spoken);
    if after.len() > 0 {
        assert(t[name.len() as int] == after[0]);
    }
}

} // verus!
