//! Helpers shared by the notification widgets: relative times, previews,
//! summary keys, auto-hide policy and action pairs.
use vstd::prelude::*;
use vstd::string::StrSliceExecFns;
use vstd::string::StringExecFns;
use crate::text::{
    between, byte_len, chars_between, join_text, decimal, decimal_string, is_white_space, on_boundary,
    push_char, str_byte_len, substring, white_space,
};

verus! {

broadcast use crate::text::lemma_start_boundary;

/// Seconds from `ts` to `now`, or zero when `ts` lies in the future.
pub open spec fn elapsed(now: u64, ts: u64) -> nat {
    if now >= ts {
        (now - ts) as nat
    } else {
        0
    }
}

/// The short "time ago" label for `secs` seconds, with `unit_hours` as the
/// suffix used for hours.
pub open spec fn age_label(secs: nat, unit_hours: Seq<char>) -> Seq<char> {
    if secs < 60 {
        "now"@
    } else if secs < 3600 {
        decimal(secs / 60) + "m"@
    } else if secs < 86400 {
        decimal(secs / 3600) + unit_hours
    } else {
        decimal(secs / 86400) + "d"@
    }
}

/// The label `time_ago` gives.
pub open spec fn time_ago_text(now: u64, ts: u64) -> Seq<char> {
    age_label(elapsed(now, ts), "hr"@)
}

fn age_label_string(secs: u64, unit_hours: &str) -> (r: String)
    ensures
        r@ == age_label(secs as nat, unit_hours@),
{
    if secs < 60 {
        "now".to_owned()
    } else if secs < 3600 {
        let mut r = decimal_string(secs / 60);
        r.append("m");
        r
    } else if secs < 86400 {
        let mut r = decimal_string(secs / 3600);
        r.append(unit_hours);
        r
    } else {
        let mut r = decimal_string(secs / 86400);
        r.append("d");
        r
    }
}

/// Returns a "time ago" label for the epoch timestamp `ts` seen at `crn_time`:
/// "now" under a minute, then whole minutes ("5m"), hours ("3hr") or days
/// ("2d").
pub fn time_ago(crn_time: u64, ts: u64) -> (r: String)
    ensures
        r@ == time_ago_text(crn_time, ts),
{
    let diff = if crn_time >= ts {
        crn_time - ts
    } else {
        0
    };
    age_label_string(diff, "hr")
}

/// The label the notification drawer shows for an age, where `None` stands
/// for a creation time later than the clock.
pub open spec fn elapsed_text(secs: Option<u64>) -> Seq<char> {
    match secs {
        Some(s) => age_label(s as nat, "h"@),
        None => "now"@,
    }
}

/// Formats an age in seconds the way the notification drawer does: "now",
/// "5m", "3h" or "2d"; an age of `None` (a creation time in the future) reads
/// "now".
pub fn format_elapsed(secs: Option<u64>) -> (r: String)
    ensures
        r@ == elapsed_text(secs),
{
    match secs {
        Some(s) => age_label_string(s, "h"),
        None => "now".to_owned(),
    }
}

/// A notification whose timeout is 0 never hides by itself; any other
/// value (-1 for the server default, or a positive time) does.
pub fn should_auto_hide(timeout: i32) -> (r: bool)
    ensures
        r == (timeout != 0),
{
    match timeout {
        0 => false,
        _ => true,
    }
}

/// Pairs up a flat action list `[id0, label0, id1, label1, ...]`; a trailing
/// unpaired entry is dropped.
pub fn parse_actions(actions: Vec<String>) -> (r: Vec<(String, String)>)
    ensures
        r.len() == actions.len() / 2,
        forall|i: int|
            #![trigger r[i]]
            0 <= i < r.len() ==> r[i].0 == actions[2 * i] && r[i].1 == actions[2 * i + 1],
{
    let mut r: Vec<(String, String)> = Vec::new();
    let mut i: usize = 0;
    let n = actions.len();
    while i + 1 < n
        invariant
            n == actions.len(),
            i % 2 == 0,
            i <= n,
            r.len() == i / 2,
            forall|k: int|
                #![trigger r[k]]
                0 <= k < r.len() ==> r[k].0 == actions[2 * k] && r[k].1 == actions[2 * k + 1],
        decreases n - i,
    {
        let a = actions[i].clone();
        let b = actions[i + 1].clone();
        r.push((a, b));
        i = i + 2;
    }
    r
}

/// The preview of an application name: names longer than 30 bytes are cut
/// to their first 30 bytes and marked with "...".
pub open spec fn notification_name_text(name: Seq<char>) -> Seq<char> {
    if name.len() == 0 {
        name
    } else if byte_len(name) > 30 {
        between(name, 0, 30) + "..."@
    } else {
        name
    }
}

/// Shortens an application name for display (see [`notification_name_text`]).
/// The cut at byte 30 must fall on a character boundary.
pub fn format_notification_name(app_name: &str) -> (r: String)
    requires
        byte_len(app_name@) <= 30 || on_boundary(app_name@, 30),
    ensures
        r@ == notification_name_text(app_name@),
{
    if app_name.is_empty() {
        app_name.to_owned()
    } else if str_byte_len(app_name) > 30 {
        let mut r = substring(app_name, 0, 30);
        r.append("...");
        r
    } else {
        app_name.to_owned()
    }
}

/// `s` with each line break turned into a space.
pub open spec fn newline_to_space(s: Seq<char>) -> Seq<char> {
    s.map_values(|c: char| if c == '\n' { ' ' } else { c })
}

/// The one-line preview of a notification: the body alone stands for
/// nothing, else "app: body" with line breaks flattened, a body over 100
/// bytes cut to 97 bytes and marked with "...".
pub open spec fn notification_body_text(name: Seq<char>, body: Seq<char>) -> Seq<char> {
    if body.len() == 0 {
        name
    } else {
        let clean = newline_to_space(body);
        if byte_len(clean) > 100 {
            name + ": "@ + between(clean, 0, 97) + "..."@
        } else {
            name + ": "@ + clean
        }
    }
}

fn flatten_lines(s: &str) -> (r: String)
    ensures
        r@ == newline_to_space(s@),
{
    let mut r = String::new();
    let n = s.unicode_len();
    let mut i: usize = 0;
    while i < n
        invariant
            n == s@.len(),
            i <= n,
            r@ == newline_to_space(s@.subrange(0, i as int)),
        decreases n - i,
    {
        let c = s.get_char(i);
        if c == '\n' {
            push_char(&mut r, ' ');
        } else {
            push_char(&mut r, c);
        }
        assert(newline_to_space(s@.subrange(0, i + 1)) =~= newline_to_space(
            s@.subrange(0, i as int),
        ).push(if c == '\n' { ' ' } else { c }));
        i = i + 1;
    }
    assert(s@.subrange(0, n as int) =~= s@);
    r
}

/// Builds the preview line of a notification (see [`notification_body_text`]).
/// The cut at byte 97 of the flattened body must fall on a character boundary.
pub fn format_notification_body(app_name: &str, body: &str) -> (r: String)
    requires
        byte_len(newline_to_space(body@)) <= 100 || on_boundary(newline_to_space(body@), 97),
    ensures
        r@ == notification_body_text(app_name@, body@),
{
    if body.is_empty() {
        app_name.to_owned()
    } else {
        let clean = flatten_lines(body);
        let mut r = join_text(app_name, ": ");
        if str_byte_len(clean.as_str()) > 100 {
            let cut = substring(clean.as_str(), 0, 97);
            r.append(cut.as_str());
            r.append("...");
        } else {
            r.append(clean.as_str());
        }
        r
    }
}

/// The characters of `s` before the first `c`; all of `s` when it has none.
pub open spec fn before_first(s: Seq<char>, c: char) -> Seq<char>
    decreases s.len(),
{
    if s.len() == 0 {
        s
    } else if s[0] == c {
        Seq::empty()
    } else {
        seq![s[0]] + before_first(s.drop_first(), c)
    }
}

/// `s` without its leading white space.
pub open spec fn trim_start(s: Seq<char>) -> Seq<char>
    decreases s.len(),
{
    if s.len() > 0 && is_white_space(s[0]) {
        trim_start(s.drop_first())
    } else {
        s
    }
}

/// `s` without its trailing white space.
pub open spec fn trim_end(s: Seq<char>) -> Seq<char>
    decreases s.len(),
{
    if s.len() > 0 && is_white_space(s.last()) {
        trim_end(s.drop_last())
    } else {
        s
    }
}

/// `s` without leading and trailing white space (`str::trim`).
pub open spec fn trim(s: Seq<char>) -> Seq<char> {
    trim_end(trim_start(s))
}

/// The key a summary files its notification under: the text before the
/// first '(' with surrounding white space removed.
pub open spec fn summary_key(summary: Seq<char>) -> Seq<char> {
    trim(before_first(summary, '('))
}

proof fn lemma_before_first_take(s: Seq<char>, c: char, i: int)
    requires
        0 <= i <= s.len(),
        forall|j: int| 0 <= j < i ==> s[j] != c,
        i < s.len() ==> s[i] == c,
    ensures
        before_first(s, c) == s.take(i),
    decreases s.len(),
{
    if s.len() == 0 {
    } else if i == 0 {
    } else {
        lemma_before_first_take(s.drop_first(), c, i - 1);
        assert(s.take(i) =~= seq![s[0]] + s.drop_first().take(i - 1));
    }
}

proof fn lemma_trim_start_step(s: Seq<char>, lo: int, n: int)
    requires
        0 <= lo < n <= s.len(),
        is_white_space(s[lo]),
    ensures
        trim_start(s.subrange(lo, n)) == trim_start(s.subrange(lo + 1, n)),
{
    assert(s.subrange(lo, n).drop_first() =~= s.subrange(lo + 1, n));
}

proof fn lemma_trim_end_step(s: Seq<char>, lo: int, hi: int)
    requires
        0 <= lo < hi <= s.len(),
        is_white_space(s[hi - 1]),
    ensures
        trim_end(s.subrange(lo, hi)) == trim_end(s.subrange(lo, hi - 1)),
{
    assert(s.subrange(lo, hi).drop_last() =~= s.subrange(lo, hi - 1));
}

/// Groups notifications by their summary: the text before the first '('
/// with surrounding white space trimmed.
pub fn format_notification_summary(summary: &str) -> (r: String)
    ensures
        r@ == summary_key(summary@),
{
    let n = summary.unicode_len();
    let mut cut: usize = 0;
    while cut < n && summary.get_char(cut) != '('
        invariant
            n == summary@.len(),
            cut <= n,
            forall|j: int| 0 <= j < cut ==> summary@[j] != '(',
        decreases n - cut,
    {
        cut = cut + 1;
    }
    proof {
        lemma_before_first_take(summary@, '(', cut as int);
    }
    let ghost p = summary@.take(cut as int);
    let mut lo: usize = 0;
    while lo < cut && white_space(summary.get_char(lo))
        invariant
            cut <= n == summary@.len(),
            lo <= cut,
            p == summary@.take(cut as int),
            trim_start(p) == trim_start(summary@.subrange(lo as int, cut as int)),
        decreases cut - lo,
    {
        proof {
            lemma_trim_start_step(summary@, lo as int, cut as int);
        }
        lo = lo + 1;
    }
    proof {
        assert(p =~= summary@.subrange(0, cut as int));
    }
    let ghost q = summary@.subrange(lo as int, cut as int);
    assert(lo < cut ==> !is_white_space(q[0]));
    assert(trim_start(q) == q);
    let mut hi: usize = cut;
    while hi > lo && white_space(summary.get_char(hi - 1))
        invariant
            cut <= n == summary@.len(),
            lo <= hi <= cut,
            q == summary@.subrange(lo as int, cut as int),
            trim_end(q) == trim_end(summary@.subrange(lo as int, hi as int)),
        decreases hi - lo,
    {
        proof {
            lemma_trim_end_step(summary@, lo as int, hi as int);
        }
        hi = hi - 1;
    }
    let ghost t = summary@.subrange(lo as int, hi as int);
    assert(hi > lo ==> t.last() == summary@[hi - 1]);
    assert(trim_end(t) == t);
    chars_between(summary, lo, hi)
}

} // verus!
