//! What the interface reads from its forms and shows of its numbers:
//! whole numbers typed by the user, the settings form, the optional Auto
//! Drive limits, the context numbers, and the model and effort pickers.
use vstd::prelude::*;

use crate::runtime::{
    opt_text, ChatAttachment, ChatAttachmentKind, ChatModelInfo, ChatReasoningEffortInfo,
    ChatTurnSettings, EffortView, ModelView,
};
use crate::settings::AppSettings;
use crate::text::{
    chars_of, decimal, digit, digit_char, is_ws, trim_end, trim_start, has_suffix, has_suffix_exec, join, join_chars, lower, lower_chars,
    push_decimal, string_from, text_eq, trim, trim_chars,
};

verus! {

/// Whether a character is an ASCII digit.
pub open spec fn is_digit(c: char) -> bool {
    '0' <= c && c <= '9'
}

/// The value of a string of decimal digits.
pub open spec fn digits_value(s: Seq<char>) -> nat
    decreases s.len(),
{
    if s.len() == 0 {
        0
    } else {
        digits_value(s.drop_last()) * 10 + ((s.last() as u32) - ('0' as u32)) as nat
    }
}

/// Whether every character is an ASCII digit.
pub open spec fn all_digits(d: Seq<char>) -> bool {
    forall|i: int| 0 <= i < d.len() ==> is_digit(#[trigger] d[i])
}

/// The value a text of digits stands for, after an optional `+`; nothing
/// where it is empty or holds anything else.
pub open spec fn unsigned_text(s: Seq<char>) -> Option<nat> {
    let d = if s.len() > 0 && s[0] == '+' {
        s.skip(1)
    } else {
        s
    };
    if d.len() > 0 && all_digits(d) {
        Some(digits_value(d))
    } else {
        None
    }
}

/// What `str::parse` gives for an unsigned type whose largest value is
/// `limit`.
pub open spec fn parsed_unsigned(s: Seq<char>, limit: nat) -> Option<nat> {
    match unsigned_text(s) {
        Some(v) => if v <= limit {
            Some(v)
        } else {
            None
        },
        None => None,
    }
}

proof fn lemma_digits_grow(s: Seq<char>, n: int)
    requires
        0 <= n <= s.len(),
        forall|i: int| 0 <= i < s.len() ==> is_digit(#[trigger] s[i]),
    ensures
        digits_value(s.take(n)) <= digits_value(s),
    decreases s.len() - n,
{
    if n < s.len() {
        lemma_digits_grow(s, n + 1);
        assert(s.take(n + 1).drop_last() == s.take(n));
        assert(digits_value(s.take(n + 1)) >= digits_value(s.take(n)) * 10) by (nonlinear_arith)
            requires
                digits_value(s.take(n + 1)) == digits_value(s.take(n)) * 10 + (((s.take(
                    n + 1,
                ).last() as u32) - ('0' as u32)) as nat),
        ;
    } else {
        assert(s.take(n) == s);
    }
}

fn parse_unsigned(s: &str, limit: u64) -> (r: Option<u64>)
    requires
        limit >= 9,
    ensures
        match r {
            Some(v) => parsed_unsigned(s@, limit as nat) == Some(v as nat),
            None => parsed_unsigned(s@, limit as nat) is None,
        },
{
    let v = chars_of(s);
    let start: usize = if v.len() > 0 && v[0] == '+' {
        1
    } else {
        0
    };
    let ghost d = if s@.len() > 0 && s@[0] == '+' {
        s@.skip(1)
    } else {
        s@
    };
    proof {
        assert(d == v@.skip(start as int));
    }
    if start >= v.len() {
        return None;
    }
    let mut value: u64 = 0;
    let mut over = false;
    let mut i = start;
    while i < v.len()
        invariant
            limit >= 9,
            v@ == s@,
            d == (if s@.len() > 0 && s@[0] == '+' {
                s@.skip(1)
            } else {
                s@
            }),
            start <= i <= v@.len(),
            d == v@.skip(start as int),
            forall|k: int| start <= k < i ==> is_digit(#[trigger] v@[k]),
            !over ==> value as nat == digits_value(d.take(i - start)) && value <= limit,
            over ==> digits_value(d.take(i - start)) > limit,
        decreases v@.len() - i,
    {
        let c = v[i];
        if !('0' <= c && c <= '9') {
            proof {
                assert(d[i - start] == c);
                assert(!is_digit(d[i - start]));
                assert(!all_digits(d));
                assert(unsigned_text(s@) is None);
            }
            return None;
        }
        let digit: u64 = ((c as u32) - ('0' as u32)) as u64;
        proof {
            assert(digit <= 9);
            assert(d.take(i - start + 1).drop_last() == d.take(i - start));
            assert(d.take(i - start + 1).last() == c);
            assert(digits_value(d.take(i - start + 1)) == digits_value(d.take(i - start)) * 10
                + digit);
        }
        if !over {
            if value > (limit - digit) / 10 {
                over = true;
                proof {
                    assert(value * 10 + digit > limit) by (nonlinear_arith)
                        requires
                            value > (limit - digit) / 10,
                            digit <= 9,
                            digit <= limit,
                    ;
                }
            } else {
                proof {
                    assert(value * 10 + digit <= limit) by (nonlinear_arith)
                        requires
                            value <= (limit - digit) / 10,
                            digit <= limit,
                    ;
                }
                value = value * 10 + digit;
            }
        } else {
            proof {
                let p = digits_value(d.take(i - start));
                assert(p * 10 + digit > limit) by (nonlinear_arith)
                    requires
                        p > limit,
                ;
            }
        }
        i = i + 1;
    }
    proof {
        assert(d.take(v@.len() - start) == d);
        assert forall|k: int| 0 <= k < d.len() implies is_digit(#[trigger] d[k]) by {
            assert(d[k] == v@[k + start]);
        }
    }
    if over {
        None
    } else {
        Some(value)
    }
}

/// `str::parse::<u32>`: a whole number that fits in a `u32`.
pub fn parse_u32(s: &str) -> (r: Option<u32>)
    ensures
        match r {
            Some(v) => parsed_unsigned(s@, u32::MAX as nat) == Some(v as nat),
            None => parsed_unsigned(s@, u32::MAX as nat) is None,
        },
{
    match parse_unsigned(s, 0xffff_ffff) {
        Some(v) => Some(v as u32),
        None => None,
    }
}

/// `str::parse::<usize>`: a whole number that fits in a `usize`.
pub fn parse_usize(s: &str) -> (r: Option<usize>)
    ensures
        match r {
            Some(v) => parsed_unsigned(s@, usize::MAX as nat) == Some(v as nat),
            None => parsed_unsigned(s@, usize::MAX as nat) is None,
        },
{
    match parse_unsigned(s, usize::MAX as u64) {
        Some(v) => Some(v as usize),
        None => None,
    }
}

/// What `str::parse::<i32>` gives: an optional sign, then digits, within
/// the `i32` range.
pub open spec fn parsed_i32(s: Seq<char>) -> Option<int> {
    if s.len() > 0 && s[0] == '-' {
        match unsigned_text(s.skip(1)) {
            Some(v) => if s.skip(1).len() > 0 && s.skip(1)[0] != '+' && v <= 0x8000_0000 {
                Some(-v)
            } else {
                None
            },
            None => None,
        }
    } else {
        match parsed_unsigned(s, 0x7fff_ffff) {
            Some(v) => Some(v as int),
            None => None,
        }
    }
}

/// What `str::parse::<i64>` gives: an optional sign, then digits, within
/// the `i64` range.
pub open spec fn parsed_i64(s: Seq<char>) -> Option<int> {
    if s.len() > 0 && s[0] == '-' {
        match unsigned_text(s.skip(1)) {
            Some(v) => if s.skip(1).len() > 0 && s.skip(1)[0] != '+' && v <= 0x8000_0000_0000_0000 {
                Some(-v)
            } else {
                None
            },
            None => None,
        }
    } else {
        match parsed_unsigned(s, 0x7fff_ffff_ffff_ffff) {
            Some(v) => Some(v as int),
            None => None,
        }
    }
}

/// `str::parse::<i64>`.
pub fn parse_i64(s: &str) -> (r: Option<i64>)
    ensures
        match r {
            Some(v) => parsed_i64(s@) == Some(v as int),
            None => parsed_i64(s@) is None,
        },
{
    let v = chars_of(s);
    if v.len() > 0 && v[0] == '-' {
        if v.len() > 1 && v[1] == '+' {
            proof {
                assert(s@.skip(1)[0] == '+');
            }
            return None;
        }
        let mut rest: Vec<char> = Vec::new();
        let mut i: usize = 1;
        while i < v.len()
            invariant
                1 <= i <= v@.len(),
                rest@ == v@.subrange(1, i as int),
            decreases v@.len() - i,
        {
            rest.push(v[i]);
            proof {
                assert(v@.subrange(1, i as int).push(v@[i as int]) == v@.subrange(1, i + 1));
            }
            i = i + 1;
        }
        proof {
            assert(v@.subrange(1, v@.len() as int) == s@.skip(1));
        }
        let tail = string_from(&rest);
        match parse_unsigned(tail.as_str(), 0x8000_0000_0000_0000) {
            Some(m) => {
                proof {
                    if s@.skip(1).len() > 0 {
                        assert(s@.skip(1)[0] != '+');
                    }
                }
                if m == 0x8000_0000_0000_0000 {
                    Some(i64::MIN)
                } else {
                    Some(0 - (m as i64))
                }
            },
            None => None,
        }
    } else {
        match parse_unsigned(s, 0x7fff_ffff_ffff_ffff) {
            Some(m) => Some(m as i64),
            None => None,
        }
    }
}

/// `str::parse::<i32>`.
pub fn parse_i32(s: &str) -> (r: Option<i32>)
    ensures
        match r {
            Some(v) => parsed_i32(s@) == Some(v as int),
            None => parsed_i32(s@) is None,
        },
{
    let v = chars_of(s);
    if v.len() > 0 && v[0] == '-' {
        if v.len() > 1 && v[1] == '+' {
            proof {
                assert(s@.skip(1)[0] == '+');
            }
            return None;
        }
        let mut rest: Vec<char> = Vec::new();
        let mut i: usize = 1;
        while i < v.len()
            invariant
                1 <= i <= v@.len(),
                rest@ == v@.subrange(1, i as int),
            decreases v@.len() - i,
        {
            rest.push(v[i]);
            proof {
                assert(v@.subrange(1, i as int).push(v@[i as int]) == v@.subrange(1, i + 1));
            }
            i = i + 1;
        }
        proof {
            assert(v@.subrange(1, v@.len() as int) == s@.skip(1));
        }
        let tail = string_from(&rest);
        match parse_unsigned(tail.as_str(), 0x8000_0000) {
            Some(m) => {
                proof {
                    if s@.skip(1).len() > 0 {
                        assert(s@.skip(1)[0] != '+');
                    }
                }
                if m == 0x8000_0000 {
                    Some(i32::MIN)
                } else {
                    Some(0 - (m as i32))
                }
            },
            None => None,
        }
    } else {
        match parse_unsigned(s, 0x7fff_ffff) {
            Some(m) => Some(m as i32),
            None => None,
        }
    }
}

fn with_suffix(label: &str, suffix: &str) -> (r: String)
    ensures
        r@ == label@ + suffix@,
{
    let mut v = chars_of(label);
    let w = chars_of(suffix);
    let ghost start = v@;
    for i in 0..w.len()
        invariant
            v@ == start + w@.take(i as int),
    {
        v.push(w[i]);
        proof {
            assert(w@.take(i as int).push(w@[i as int]) == w@.take(i + 1));
        }
    }
    proof {
        assert(w@.take(w@.len() as int) == w@);
    }
    string_from(&v)
}

/// What an optional limit field says: nothing when blank, the number when
/// it is a whole number above zero, and the error otherwise.
pub open spec fn optional_limit(label: Seq<char>, value: Seq<char>) -> Result<Option<u32>, Seq<char>> {
    let t = trim(value);
    if t.len() == 0 {
        Ok(None)
    } else {
        match parsed_unsigned(t, u32::MAX as nat) {
            None => Err(label + " must be a whole number."@),
            Some(v) => if v == 0 {
                Err(label + " must be greater than 0 or left blank."@)
            } else {
                Ok(Some(v as u32))
            },
        }
    }
}

/// Reads an optional limit field.
pub fn parse_optional_limit_input(label: &str, value: &str) -> (r: Result<Option<u32>, String>)
    ensures
        match r {
            Ok(v) => optional_limit(label@, value@) == Ok::<Option<u32>, Seq<char>>(v),
            Err(e) => optional_limit(label@, value@) == Err::<Option<u32>, Seq<char>>(e@),
        },
{
    proof {
        reveal_strlit(" must be a whole number.");
        reveal_strlit(" must be greater than 0 or left blank.");
    }
    let t = string_from(&trim_chars(&chars_of(value)));
    if chars_of(t.as_str()).len() == 0 {
        return Ok(None);
    }
    match parse_u32(t.as_str()) {
        None => Err(with_suffix(label, " must be a whole number.")),
        Some(v) => {
            if v == 0 {
                Err(with_suffix(label, " must be greater than 0 or left blank."))
            } else {
                Ok(Some(v))
            }
        },
    }
}

/// The limit a field sets: a whole number above zero; nothing otherwise.
pub open spec fn limit_of(value: Seq<char>) -> Option<u32> {
    match parsed_unsigned(trim(value), u32::MAX as nat) {
        Some(v) => if trim(value).len() > 0 && v > 0 {
            Some(v as u32)
        } else {
            None
        },
        None => None,
    }
}

/// The limit a field sets: a whole number above zero; nothing otherwise.
pub fn optional_limit_value(value: &str) -> (r: Option<u32>)
    ensures
        r == limit_of(value@),
{
    let t = string_from(&trim_chars(&chars_of(value)));
    if chars_of(t.as_str()).len() == 0 {
        return None;
    }
    match parse_u32(t.as_str()) {
        Some(v) => if v > 0 {
            Some(v)
        } else {
            None
        },
        None => None,
    }
}

/// The digits of a text, in order.
pub open spec fn digits_only(s: Seq<char>) -> Seq<char> {
    s.filter_map(|c: char| if is_digit(c) { Some(c) } else { None })
}

/// What a number field keeps of what was typed: its ASCII digits.
pub fn sanitize_settings_input(value: &str) -> (r: String)
    ensures
        r@ == digits_only(value@),
{
    let v = chars_of(value);
    let ghost f = |c: char| if is_digit(c) { Some(c) } else { None };
    let mut out: Vec<char> = Vec::new();
    let mut i: usize = 0;
    while i < v.len()
        invariant
            i <= v@.len(),
            v@ == value@,
            f == (|c: char| if is_digit(c) { Some(c) } else { None }),
            out@ == v@.take(i as int).filter_map(f),
        decreases v@.len() - i,
    {
        proof {
            v@.lemma_filter_map_take_succ(f, i as int);
        }
        if '0' <= v[i] && v[i] <= '9' {
            out.push(v[i]);
        }
        i = i + 1;
    }
    proof {
        assert(v@.take(v@.len() as int) == v@);
    }
    string_from(&out)
}

/// How an optional limit is shown in its field.
pub fn optional_limit_string(value: Option<u32>) -> (r: String)
    ensures
        r@ == match value {
            Some(v) => decimal(v as nat),
            None => Seq::<char>::empty(),
        },
{
    match value {
        Some(v) => {
            let mut out: Vec<char> = Vec::new();
            push_decimal(&mut out, v as u64);
            string_from(&out)
        },
        None => String::new(),
    }
}

/// Whether Auto Drive stops once the work is done or keeps going.
#[derive(Debug, Clone, Copy, PartialEq, Eq, Structural)]
pub enum AutoDriveMode {
    Completion,
    OpenEnded,
}

/// The name a mode is stored under.
pub open spec fn mode_name(m: AutoDriveMode) -> Seq<char> {
    match m {
        AutoDriveMode::Completion => "completion"@,
        AutoDriveMode::OpenEnded => "open-ended"@,
    }
}

impl AutoDriveMode {
    /// The name the mode is stored under.
    pub fn as_str(self) -> (r: &'static str)
        ensures
            r@ == mode_name(self),
    {
        proof {
            reveal_strlit("completion");
            reveal_strlit("open-ended");
        }
        match self {
            AutoDriveMode::Completion => "completion",
            AutoDriveMode::OpenEnded => "open-ended",
        }
    }

    /// The mode a stored name stands for; completion for any other name.
    pub fn from_stored(value: &str) -> (m: AutoDriveMode)
        ensures
            m == if value@ == "open-ended"@ {
                AutoDriveMode::OpenEnded
            } else {
                AutoDriveMode::Completion
            },
    {
        proof {
            reveal_strlit("open-ended");
        }
        if text_eq(value, "open-ended") {
            AutoDriveMode::OpenEnded
        } else {
            AutoDriveMode::Completion
        }
    }
}

/// What the settings form gives: the agent limits must be whole numbers of
/// at least one, and the optional limits are read as `optional_limit`
/// reads them; Auto Drive stays off and the workspace is the default one.
pub open spec fn settings_form(
    max_threads: Seq<char>,
    max_depth: Seq<char>,
    mode: AutoDriveMode,
    runtime_hours: Seq<char>,
    max_turns: Seq<char>,
) -> Result<(usize, i32, Option<u32>, Option<u32>), Seq<char>> {
    match parsed_unsigned(trim(max_threads), usize::MAX as nat) {
        None => Err("Agent threads must be a whole number."@),
        Some(threads) => match parsed_i32(trim(max_depth)) {
            None => Err("Agent depth must be a whole number."@),
            Some(depth) => if threads < 1 {
                Err("Agent threads must be at least 1."@)
            } else if depth < 1 {
                Err("Agent depth must be at least 1."@)
            } else {
                match optional_limit("Auto Drive max runtime"@, runtime_hours) {
                    Err(e) => Err(e),
                    Ok(hours) => match optional_limit("Auto Drive max turns"@, max_turns) {
                        Err(e) => Err(e),
                        Ok(turns) => Ok((threads as usize, depth as i32, hours, turns)),
                    },
                }
            },
        },
    }
}

fn literal(t: &str) -> (r: String)
    ensures
        r@ == t@,
{
    String::from_str(t)
}

/// Reads the settings form into settings that keep Auto Drive off and work
/// in `default_workspace`.
pub fn parse_settings_form(
    max_threads: &str,
    max_depth: &str,
    auto_drive_mode: AutoDriveMode,
    auto_drive_runtime_hours: &str,
    auto_drive_max_turns: &str,
    default_workspace: String,
) -> (r: Result<AppSettings, String>)
    ensures
        match r {
            Ok(s) => {
                &&& settings_form(
                    max_threads@,
                    max_depth@,
                    auto_drive_mode,
                    auto_drive_runtime_hours@,
                    auto_drive_max_turns@,
                ) == Ok::<(usize, i32, Option<u32>, Option<u32>), Seq<char>>(
                    (
                        s.agent_max_threads,
                        s.agent_max_depth,
                        s.auto_drive_max_runtime_hours,
                        s.auto_drive_max_turns,
                    ),
                )
                &&& !s.auto_drive_enabled
                &&& s.auto_drive_mode@ == mode_name(auto_drive_mode)
                &&& s.current_workspace_path@ == default_workspace@
            },
            Err(e) => settings_form(
                max_threads@,
                max_depth@,
                auto_drive_mode,
                auto_drive_runtime_hours@,
                auto_drive_max_turns@,
            ) == Err::<(usize, i32, Option<u32>, Option<u32>), Seq<char>>(e@),
        },
{
    proof {
        reveal_strlit("Agent threads must be a whole number.");
        reveal_strlit("Agent depth must be a whole number.");
        reveal_strlit("Agent threads must be at least 1.");
        reveal_strlit("Agent depth must be at least 1.");
        reveal_strlit("Auto Drive max runtime");
        reveal_strlit("Auto Drive max turns");
    }
    let threads_text = string_from(&trim_chars(&chars_of(max_threads)));
    let threads = match parse_usize(threads_text.as_str()) {
        Some(t) => t,
        None => return Err(literal("Agent threads must be a whole number.")),
    };
    let depth_text = string_from(&trim_chars(&chars_of(max_depth)));
    let depth = match parse_i32(depth_text.as_str()) {
        Some(d) => d,
        None => return Err(literal("Agent depth must be a whole number.")),
    };
    if threads < 1 {
        return Err(literal("Agent threads must be at least 1."));
    }
    if depth < 1 {
        return Err(literal("Agent depth must be at least 1."));
    }
    let hours = match parse_optional_limit_input("Auto Drive max runtime", auto_drive_runtime_hours) {
        Ok(h) => h,
        Err(e) => return Err(e),
    };
    let turns = match parse_optional_limit_input("Auto Drive max turns", auto_drive_max_turns) {
        Ok(t) => t,
        Err(e) => return Err(e),
    };
    Ok(
        AppSettings {
            agent_max_threads: threads,
            agent_max_depth: depth,
            auto_drive_enabled: false,
            auto_drive_mode: literal(auto_drive_mode.as_str()),
            auto_drive_max_turns: turns,
            auto_drive_max_runtime_hours: hours,
            current_workspace_path: default_workspace,
        },
    )
}


/// The label of a reasoning effort in the effort picker.
pub open spec fn effort_title(effort: Seq<char>) -> Seq<char> {
    if effort == "none"@ {
        "None"@
    } else if effort == "minimal"@ {
        "Minimal"@
    } else if effort == "low"@ {
        "Low"@
    } else if effort == "medium"@ {
        "Medium"@
    } else if effort == "high"@ {
        "High"@
    } else if effort == "xhigh"@ {
        "XHigh"@
    } else {
        "Medium"@
    }
}

/// The label of a reasoning effort in the effort picker.
pub fn effort_label(effort: &str) -> (r: &'static str)
    ensures
        r@ == effort_title(effort@),
{
    proof {
        reveal_strlit("none");
        reveal_strlit("minimal");
        reveal_strlit("low");
        reveal_strlit("medium");
        reveal_strlit("high");
        reveal_strlit("xhigh");
        reveal_strlit("None");
        reveal_strlit("Minimal");
        reveal_strlit("Low");
        reveal_strlit("Medium");
        reveal_strlit("High");
        reveal_strlit("XHigh");
    }
    if text_eq(effort, "none") {
        "None"
    } else if text_eq(effort, "minimal") {
        "Minimal"
    } else if text_eq(effort, "low") {
        "Low"
    } else if text_eq(effort, "medium") {
        "Medium"
    } else if text_eq(effort, "high") {
        "High"
    } else if text_eq(effort, "xhigh") {
        "XHigh"
    } else {
        "Medium"
    }
}

/// The style class of a reasoning effort's title: one per known effort,
/// the medium one for any other.
pub open spec fn effort_tone(effort: Seq<char>) -> Seq<char> {
    if effort == "none"@ {
        "effort-title effort-title-none"@
    } else if effort == "minimal"@ {
        "effort-title effort-title-minimal"@
    } else if effort == "low"@ {
        "effort-title effort-title-low"@
    } else if effort == "high"@ {
        "effort-title effort-title-high"@
    } else if effort == "xhigh"@ {
        "effort-title effort-title-xhigh"@
    } else {
        "effort-title effort-title-medium"@
    }
}

/// The style class of a reasoning effort's title.
pub fn effort_tone_class(effort: &str) -> (r: &'static str)
    ensures
        r@ == effort_tone(effort@),
{
    proof {
        reveal_strlit("none");
        reveal_strlit("minimal");
        reveal_strlit("low");
        reveal_strlit("high");
        reveal_strlit("xhigh");
    }
    if text_eq(effort, "none") {
        "effort-title effort-title-none"
    } else if text_eq(effort, "minimal") {
        "effort-title effort-title-minimal"
    } else if text_eq(effort, "low") {
        "effort-title effort-title-low"
    } else if text_eq(effort, "high") {
        "effort-title effort-title-high"
    } else if text_eq(effort, "xhigh") {
        "effort-title effort-title-xhigh"
    } else {
        "effort-title effort-title-medium"
    }
}

/// How a reasoning effort is named in labels: the known ones by their
/// title, any other as it is.
pub open spec fn effort_display(effort: Seq<char>) -> Seq<char> {
    if effort == "none"@ {
        "None"@
    } else if effort == "low"@ {
        "Low"@
    } else if effort == "medium"@ {
        "Medium"@
    } else if effort == "high"@ {
        "High"@
    } else if effort == "xhigh"@ {
        "XHigh"@
    } else {
        effort
    }
}

/// How a reasoning effort is named in labels.
pub fn display_effort_label(effort: &str) -> (r: String)
    ensures
        r@ == effort_display(effort@),
{
    proof {
        reveal_strlit("none");
        reveal_strlit("low");
        reveal_strlit("medium");
        reveal_strlit("high");
        reveal_strlit("xhigh");
        reveal_strlit("None");
        reveal_strlit("Low");
        reveal_strlit("Medium");
        reveal_strlit("High");
        reveal_strlit("XHigh");
    }
    if text_eq(effort, "none") {
        literal("None")
    } else if text_eq(effort, "low") {
        literal("Low")
    } else if text_eq(effort, "medium") {
        literal("Medium")
    } else if text_eq(effort, "high") {
        literal("High")
    } else if text_eq(effort, "xhigh") {
        literal("XHigh")
    } else {
        literal(effort)
    }
}

/// The name the interface gives a model it knows, if it knows it.
pub open spec fn known_model_name(id: Seq<char>) -> Option<Seq<char>> {
    if id == "gpt-5.4-pro"@ {
        Some("GPT-5.4 Pro"@)
    } else if id == "gpt-5.4"@ {
        Some("GPT-5.4"@)
    } else if id == "gpt-5.4-mini"@ {
        Some("GPT-5.4 Mini"@)
    } else if id == "gpt-5.4-nano"@ {
        Some("GPT-5.4 Nano"@)
    } else {
        None
    }
}

fn known_name(id: &str) -> (r: Option<&'static str>)
    ensures
        match r {
            Some(n) => known_model_name(id@) == Some(n@),
            None => known_model_name(id@) is None,
        },
{
    proof {
        reveal_strlit("gpt-5.4-pro");
        reveal_strlit("gpt-5.4");
        reveal_strlit("gpt-5.4-mini");
        reveal_strlit("gpt-5.4-nano");
        reveal_strlit("GPT-5.4 Pro");
        reveal_strlit("GPT-5.4");
        reveal_strlit("GPT-5.4 Mini");
        reveal_strlit("GPT-5.4 Nano");
    }
    if text_eq(id, "gpt-5.4-pro") {
        Some("GPT-5.4 Pro")
    } else if text_eq(id, "gpt-5.4") {
        Some("GPT-5.4")
    } else if text_eq(id, "gpt-5.4-mini") {
        Some("GPT-5.4 Mini")
    } else if text_eq(id, "gpt-5.4-nano") {
        Some("GPT-5.4 Nano")
    } else {
        None
    }
}

/// How a model id is named: by its known name, else by the id.
pub fn display_model_id_label(model_id: &str) -> (r: String)
    ensures
        r@ == match known_model_name(model_id@) {
            Some(n) => n,
            None => model_id@,
        },
{
    match known_name(model_id) {
        Some(n) => literal(n),
        None => literal(model_id),
    }
}

/// How a model is named: by its known name, else by its display name.
pub fn display_model_label(model: &ChatModelInfo) -> (r: String)
    ensures
        r@ == match known_model_name(model.id@) {
            Some(n) => n,
            None => model.display_name@,
        },
{
    match known_name(model.id.as_str()) {
        Some(n) => literal(n),
        None => model.display_name.clone(),
    }
}

/// Whether a model offers the long context window.
pub fn model_supports_long_context(model_id: &str) -> (b: bool)
    ensures
        b == (model_id@ == "gpt-5.4-pro"@ || model_id@ == "gpt-5.4"@),
{
    text_eq(model_id, "gpt-5.4-pro") || text_eq(model_id, "gpt-5.4")
}

/// The model a turn runs with: the selected one, or GPT-5.4 where none is
/// selected.
pub open spec fn turn_model(selected: Seq<char>) -> Seq<char> {
    if selected.len() == 0 {
        "gpt-5.4"@
    } else {
        selected
    }
}

/// The settings a prompt is sent with: the selected model and effort, the
/// `fast` service tier in fast mode, and the long context where it is
/// switched on and the model offers it.
pub fn chat_turn_settings(
    selected_model: &str,
    selected_effort: &str,
    fast_mode: bool,
    one_m_context: bool,
) -> (r: ChatTurnSettings)
    ensures
        r.model@ == turn_model(selected_model@),
        r.effort matches Some(e) && e@ == selected_effort@,
        opt_text(r.service_tier) == if fast_mode {
            Some("fast"@)
        } else {
            None
        },
        r.long_context == (one_m_context && (turn_model(selected_model@) == "gpt-5.4-pro"@
            || turn_model(selected_model@) == "gpt-5.4"@)),
{
    let model = if chars_of(selected_model).len() == 0 {
        String::from_str("gpt-5.4")
    } else {
        String::from_str(selected_model)
    };
    proof {
        reveal_strlit("gpt-5.4");
        reveal_strlit("fast");
    }
    let long_context = one_m_context && model_supports_long_context(model.as_str());
    let service_tier = if fast_mode {
        Some(String::from_str("fast"))
    } else {
        None
    };
    ChatTurnSettings {
        model,
        effort: Some(String::from_str(selected_effort)),
        service_tier,
        long_context,
    }
}

/// The context window a turn starts with before the server reports one.
pub fn initial_context_window(long_context: bool) -> (r: u64)
    ensures
        r == if long_context {
            1_000_000u64
        } else {
            258_400u64
        },
{
    if long_context {
        1_000_000
    } else {
        258_400
    }
}

/// The file name endings that mark an image, in lower case.
pub open spec fn image_endings() -> Seq<Seq<char>> {
    seq![".png"@, ".jpg"@, ".jpeg"@, ".gif"@, ".webp"@, ".bmp"@, ".svg"@, ".avif"@]
}

/// Whether a path names an image: its lower-cased text ends with one of
/// the image endings.
pub open spec fn image_path(path: Seq<char>) -> bool {
    exists|i: int| 0 <= i < image_endings().len() && has_suffix(lower(path), #[trigger] image_endings()[i])
}

/// How a picked file is attached: as an image where its name says so, as
/// a file otherwise.
pub fn attachment_kind_for_path(path: &str) -> (k: ChatAttachmentKind)
    ensures
        k == if image_path(path@) {
            ChatAttachmentKind::Image
        } else {
            ChatAttachmentKind::File
        },
{
    let low = lower_chars(&chars_of(path));
    let ends: Vec<&str> = vec![".png", ".jpg", ".jpeg", ".gif", ".webp", ".bmp", ".svg", ".avif"];
    proof {
        reveal_strlit(".png");
        reveal_strlit(".jpg");
        reveal_strlit(".jpeg");
        reveal_strlit(".gif");
        reveal_strlit(".webp");
        reveal_strlit(".bmp");
        reveal_strlit(".svg");
        reveal_strlit(".avif");
        assert(ends@.map_values(|e: &str| e@) == image_endings());
    }
    let mut i: usize = 0;
    while i < ends.len()
        invariant
            i <= ends@.len(),
            ends@.len() == 8,
            low@ == lower(path@),
            ends@.map_values(|e: &str| e@) == image_endings(),
            forall|j: int| 0 <= j < i ==> !has_suffix(lower(path@), #[trigger] image_endings()[j]),
        decreases ends@.len() - i,
    {
        let e = chars_of(ends[i]);
        proof {
            assert(e@ == image_endings()[i as int]);
        }
        if has_suffix_exec(&low, &e) {
            return ChatAttachmentKind::Image;
        }
        i = i + 1;
    }
    ChatAttachmentKind::File
}

/// The usage multiplier of a context in tenths: fast mode costs one and a
/// half times as much, and a long context that holds more than the default
/// window of 258,400 tokens twice as much again.
pub open spec fn usage_multiplier_tenths(fast: bool, window: u64, tokens: u64) -> u32 {
    let base: u32 = if fast {
        15
    } else {
        10
    };
    if window > 258_400 && tokens > 258_400 {
        (base * 2) as u32
    } else {
        base
    }
}

/// The usage multiplier of the current context, in tenths.
pub fn context_usage_multiplier(fast_enabled: bool, raw_context_window: u64, raw_context_tokens: u64) -> (r:
    u32)
    ensures
        r == usage_multiplier_tenths(fast_enabled, raw_context_window, raw_context_tokens),
{
    let mut tenths: u32 = 10;
    if fast_enabled {
        tenths = 15;
    }
    let long_context_active = raw_context_window > 258_400;
    if long_context_active && raw_context_tokens > 258_400 {
        tenths = tenths * 2;
    }
    tenths
}

/// A multiplier given in tenths as it is shown: with one decimal where it
/// has a fraction, then `x`.
pub open spec fn multiplier_text(tenths: u32) -> Seq<char> {
    if tenths % 10 == 0 {
        decimal((tenths / 10) as nat) + "x"@
    } else {
        decimal((tenths / 10) as nat) + seq!['.', digit((tenths % 10) as nat), 'x']
    }
}

/// Shows a usage multiplier given in tenths.
pub fn format_usage_multiplier(tenths: u32) -> (r: String)
    ensures
        r@ == multiplier_text(tenths),
{
    let mut out: Vec<char> = Vec::new();
    push_decimal(&mut out, (tenths / 10) as u64);
    if tenths % 10 != 0 {
        out.push('.');
        out.push(digit_char((tenths % 10) as u64));
    }
    out.push('x');
    proof {
        reveal_strlit("x");
        assert(out@ =~= multiplier_text(tenths));
    }
    string_from(&out)
}

/// The point at which a context window is compacted: the long-context
/// limit for a window at least as large as the long context, the window
/// itself otherwise.
pub open spec fn compact_limit(window: u64) -> u64 {
    if window >= 1_000_000 {
        950_000
    } else {
        window
    }
}

/// The tokens every context starts with.
pub open spec fn baseline_tokens() -> u64 {
    12_000
}

/// When a context window is compacted.
pub fn compact_limit_for_window(context_window: u64) -> (r: u64)
    ensures
        r == compact_limit(context_window),
{
    if context_window >= 1_000_000 {
        950_000
    } else {
        context_window
    }
}

/// The context window shown: up to compaction, less the baseline, never
/// below zero.
pub fn display_context_window(context_window: u64) -> (r: u64)
    ensures
        r == if compact_limit(context_window) >= baseline_tokens() {
            (compact_limit(context_window) - baseline_tokens()) as u64
        } else {
            0
        },
{
    let limit = compact_limit_for_window(context_window);
    if limit >= 12_000 {
        limit - 12_000
    } else {
        0
    }
}

/// The context use shown: the tokens less the baseline, never below zero.
pub fn display_context_usage(context_tokens: u64) -> (r: u64)
    ensures
        r == if context_tokens >= baseline_tokens() {
            (context_tokens - baseline_tokens()) as u64
        } else {
            0
        },
{
    if context_tokens >= 12_000 {
        context_tokens - 12_000
    } else {
        0
    }
}

/// The names of the attachments, in order.
pub open spec fn attachment_names(a: Seq<ChatAttachment>) -> Seq<Seq<char>> {
    a.map_values(|x: ChatAttachment| x.name@)
}

/// The prompt sent for what the user typed: the typed text trimmed, or a
/// request to look at the attachments where only those were given.
pub open spec fn submission_text(message: Seq<char>, attachments: Seq<ChatAttachment>) -> Seq<char> {
    if trim(message).len() == 0 && attachments.len() > 0 {
        "Please inspect the attached files."@
    } else {
        trim(message)
    }
}

/// The prompt sent for what the user typed.
pub fn prompt_text_for_submission(user_message: &str, attachments: &Vec<ChatAttachment>) -> (r: String)
    ensures
        r@ == submission_text(user_message@, attachments@),
{
    let t = trim_chars(&chars_of(user_message));
    if t.len() == 0 && attachments.len() > 0 {
        proof {
            reveal_strlit("Please inspect the attached files.");
        }
        literal("Please inspect the attached files.")
    } else {
        string_from(&t)
    }
}

/// How the user's own message is shown: the typed text trimmed, with the
/// names of the attachments after it.
pub open spec fn user_message_display(message: Seq<char>, attachments: Seq<ChatAttachment>) -> Seq<
    char,
> {
    let names = join(attachment_names(attachments), ", "@);
    if attachments.len() == 0 {
        trim(message)
    } else if trim(message).len() == 0 {
        "Attached: "@ + names
    } else {
        trim(message) + "\n\nAttached: "@ + names
    }
}

fn append_all(out: &mut Vec<char>, more: &Vec<char>)
    ensures
        final(out)@ == old(out)@ + more@,
{
    let ghost start = out@;
    for i in 0..more.len()
        invariant
            out@ == start + more@.take(i as int),
    {
        out.push(more[i]);
        proof {
            assert(more@.take(i as int).push(more@[i as int]) == more@.take(i + 1));
        }
    }
    proof {
        assert(more@.take(more@.len() as int) == more@);
    }
}

/// How the user's own message is shown in the transcript.
pub fn display_user_message(user_message: &str, attachments: &Vec<ChatAttachment>) -> (r: String)
    ensures
        r@ == user_message_display(user_message@, attachments@),
{
    let t = trim_chars(&chars_of(user_message));
    if attachments.len() == 0 {
        return string_from(&t);
    }
    let mut names: Vec<Vec<char>> = Vec::new();
    for i in 0..attachments.len()
        invariant
            names@.map_values(|p: Vec<char>| p@) == attachment_names(attachments@).take(i as int),
    {
        let ghost before = names@;
        names.push(chars_of(attachments[i].name.as_str()));
        proof {
            assert(names@.map_values(|p: Vec<char>| p@) == before.map_values(|p: Vec<char>| p@).push(
                attachments@[i as int].name@,
            ));
            assert(attachment_names(attachments@).take(i + 1) == attachment_names(attachments@).take(
                i as int,
            ).push(attachments@[i as int].name@));
        }
    }
    proof {
        assert(attachment_names(attachments@).take(attachments@.len() as int) == attachment_names(
            attachments@,
        ));
        reveal_strlit(", ");
        reveal_strlit("Attached: ");
        reveal_strlit("\n\nAttached: ");
    }
    let joined = join_chars(&names, &chars_of(", "));
    let mut out: Vec<char> = Vec::new();
    if t.len() == 0 {
        append_all(&mut out, &chars_of("Attached: "));
    } else {
        append_all(&mut out, &t);
        append_all(&mut out, &chars_of("\n\nAttached: "));
    }
    append_all(&mut out, &joined);
    string_from(&out)
}


/// The views of a list of models.
pub open spec fn model_views(ms: Seq<ChatModelInfo>) -> Seq<ModelView> {
    ms.map_values(|m: ChatModelInfo| m@)
}

/// The views of a list of efforts.
pub open spec fn effort_views(es: Seq<ChatReasoningEffortInfo>) -> Seq<EffortView> {
    es.map_values(|e: ChatReasoningEffortInfo| e@)
}

/// The position of the first model with id `id`, or -1.
#[verifier::opaque]
pub open spec fn model_pos(ms: Seq<ModelView>, id: Seq<char>) -> int {
    if exists|i: int| 0 <= i < ms.len() && ms[i].id == id {
        choose|i: int|
            0 <= i < ms.len() && ms[i].id == id && (forall|j: int| 0 <= j < i ==> ms[j].id != id)
    } else {
        -1
    }
}

/// The position of the first effort that `p` holds of, or -1.
#[verifier::opaque]
pub open spec fn effort_pos(es: Seq<EffortView>, p: spec_fn(EffortView) -> bool) -> int {
    if exists|i: int| 0 <= i < es.len() && p(es[i]) {
        choose|i: int| 0 <= i < es.len() && p(es[i]) && (forall|j: int| 0 <= j < i ==> !p(es[j]))
    } else {
        -1
    }
}

proof fn lemma_model_pos(ms: Seq<ModelView>, id: Seq<char>, i: int)
    requires
        0 <= i <= ms.len(),
        forall|j: int| 0 <= j < i ==> ms[j].id != id,
        i < ms.len() ==> ms[i].id == id,
    ensures
        model_pos(ms, id) == if i < ms.len() {
            i
        } else {
            -1
        },
{
    reveal(model_pos);
    if i < ms.len() {
        let c = model_pos(ms, id);
        if c < i {
        } else if c > i {
        }
    }
}

proof fn lemma_effort_pos(es: Seq<EffortView>, p: spec_fn(EffortView) -> bool, i: int)
    requires
        0 <= i <= es.len(),
        forall|j: int| 0 <= j < i ==> !p(es[j]),
        i < es.len() ==> p(es[i]),
    ensures
        effort_pos(es, p) == if i < es.len() {
            i
        } else {
            -1
        },
{
    reveal(effort_pos);
    if i < es.len() {
        let c = effort_pos(es, p);
        if c < i {
        } else if c > i {
        }
    }
}

fn copy_text(o: &Option<String>) -> (r: Option<String>)
    ensures
        opt_text(r) == opt_text(*o),
{
    match o {
        Some(s) => Some(s.clone()),
        None => None,
    }
}

fn copy_effort(e: &ChatReasoningEffortInfo) -> (r: ChatReasoningEffortInfo)
    ensures
        r@ == e@,
{
    ChatReasoningEffortInfo { effort: e.effort.clone(), description: e.description.clone() }
}

fn copy_model(m: &ChatModelInfo) -> (r: ChatModelInfo)
    ensures
        r@ == m@,
{
    let mut efforts: Vec<ChatReasoningEffortInfo> = Vec::new();
    for i in 0..m.supported_efforts.len()
        invariant
            effort_views(efforts@) == effort_views(m.supported_efforts@).take(i as int),
    {
        let ghost before = efforts@;
        efforts.push(copy_effort(&m.supported_efforts[i]));
        proof {
            assert(effort_views(efforts@) == effort_views(before).push(
                m.supported_efforts@[i as int]@,
            ));
            assert(effort_views(m.supported_efforts@).take(i + 1) == effort_views(
                m.supported_efforts@,
            ).take(i as int).push(m.supported_efforts@[i as int]@));
        }
    }
    proof {
        assert(effort_views(m.supported_efforts@).take(m.supported_efforts@.len() as int)
            == effort_views(m.supported_efforts@));
    }
    let r = ChatModelInfo {
        id: m.id.clone(),
        display_name: m.display_name.clone(),
        description: m.description.clone(),
        default_effort: copy_text(&m.default_effort),
        supported_efforts: efforts,
        is_default: m.is_default,
    };
    proof {
        assert(r@.supported_efforts == m@.supported_efforts);
    }
    r
}

fn find_model(models: &Vec<ChatModelInfo>, id: &str) -> (r: Option<usize>)
    ensures
        match r {
            Some(i) => i < models@.len() && model_pos(model_views(models@), id@) == i,
            None => model_pos(model_views(models@), id@) == -1,
        },
{
    let ghost v = model_views(models@);
    let mut i: usize = 0;
    while i < models.len()
        invariant
            i <= models@.len(),
            v == model_views(models@),
            forall|j: int| 0 <= j < i ==> v[j].id != id@,
        decreases models@.len() - i,
    {
        if text_eq(models[i].id.as_str(), id) {
            proof {
                lemma_model_pos(v, id@, i as int);
            }
            return Some(i);
        }
        i = i + 1;
    }
    proof {
        lemma_model_pos(v, id@, i as int);
    }
    None
}

/// The model chosen in the picker, if the list has it.
pub fn current_chat_model(models: &Vec<ChatModelInfo>, selected_model: &str) -> (r: Option<ChatModelInfo>)
    ensures
        match r {
            Some(m) => model_pos(model_views(models@), selected_model@) >= 0 && m@ == model_views(
                models@,
            )[model_pos(model_views(models@), selected_model@)],
            None => model_pos(model_views(models@), selected_model@) == -1,
        },
{
    match find_model(models, selected_model) {
        Some(i) => Some(copy_model(&models[i])),
        None => None,
    }
}

/// The model `direction` steps away from the current one (the first one
/// where the current one is not listed), if the list reaches that far.
pub open spec fn model_step(ms: Seq<ModelView>, current: Seq<char>, direction: int) -> Option<int> {
    let at = if model_pos(ms, current) >= 0 {
        model_pos(ms, current)
    } else {
        0
    };
    if ms.len() == 0 || at + direction < 0 || at + direction >= ms.len() {
        None
    } else {
        Some(at + direction)
    }
}

/// Where the model picker stands: the current model's place, or the
/// first model where the current one is not listed.
pub open spec fn model_at(ms: Seq<ModelView>, current: Seq<char>) -> int {
    if model_pos(ms, current) >= 0 {
        model_pos(ms, current)
    } else {
        0
    }
}

/// Moving the model picker one way and then back the same distance
/// returns to where it stood, where no two models share an id.
pub proof fn law_model_step_reverses(ms: Seq<ModelView>, current: Seq<char>, direction: int)
    requires
        forall|i: int, j: int| 0 <= i < j < ms.len() ==> ms[i].id != ms[j].id,
        model_step(ms, current, direction) is Some,
    ensures
        model_step(ms, ms[model_step(ms, current, direction)->0].id, -direction) == Some(
            model_at(ms, current),
        ),
{
    let k = model_step(ms, current, direction)->0;
    assert forall|j: int| 0 <= j < k implies ms[j].id != ms[k].id by {
        assert(ms[j].id != ms[k].id);
    }
    lemma_model_pos(ms, ms[k].id, k);
    reveal(model_pos);
}

/// Moves the model picker by `direction`.
pub fn cycle_model(models: &Vec<ChatModelInfo>, current_model: &str, direction: i32) -> (r: Option<
    ChatModelInfo,
>)
    requires
        models@.len() + direction <= i32::MAX,
    ensures
        match r {
            Some(m) => model_step(model_views(models@), current_model@, direction as int) matches Some(
                k,
            ) && m@ == model_views(models@)[k],
            None => model_step(model_views(models@), current_model@, direction as int) is None,
        },
{
    if models.len() == 0 {
        return None;
    }
    let at: usize = match find_model(models, current_model) {
        Some(i) => i,
        None => 0,
    };
    let next: i64 = at as i64 + direction as i64;
    if next < 0 || next >= models.len() as i64 {
        return None;
    }
    Some(copy_model(&models[next as usize]))
}

/// Whether an effort is the model's default one.
pub open spec fn is_default_effort(default_effort: Option<Seq<char>>, e: EffortView) -> bool {
    default_effort == Some(e.effort)
}

/// The effort `direction` steps away from the current one in a model's
/// list; where the current one is not listed, the steps count from the
/// default effort, or else from the first.
pub open spec fn effort_step(m: ModelView, current: Seq<char>, direction: int) -> Option<int> {
    let es = m.supported_efforts;
    let by_name = effort_pos(es, |e: EffortView| e.effort == current);
    let by_default = effort_pos(es, |e: EffortView| is_default_effort(m.default_effort, e));
    let at = if by_name >= 0 {
        by_name
    } else if by_default >= 0 {
        by_default
    } else {
        0
    };
    if es.len() == 0 || at + direction < 0 || at + direction >= es.len() {
        None
    } else {
        Some(at + direction)
    }
}

/// Where the effort picker stands: the current effort's place, else the
/// model's default effort's place, else the first effort.
pub open spec fn effort_at(m: ModelView, current: Seq<char>) -> int {
    let es = m.supported_efforts;
    let by_name = effort_pos(es, |e: EffortView| e.effort == current);
    let by_default = effort_pos(es, |e: EffortView| is_default_effort(m.default_effort, e));
    if by_name >= 0 {
        by_name
    } else if by_default >= 0 {
        by_default
    } else {
        0
    }
}

/// Moving the effort picker one way and then back the same distance
/// returns to where it stood, where no two efforts share a name.
pub proof fn law_effort_step_reverses(m: ModelView, current: Seq<char>, direction: int)
    requires
        forall|i: int, j: int|
            0 <= i < j < m.supported_efforts.len() ==> m.supported_efforts[i].effort
                != m.supported_efforts[j].effort,
        effort_step(m, current, direction) is Some,
    ensures
        effort_step(
            m,
            m.supported_efforts[effort_step(m, current, direction)->0].effort,
            -direction,
        ) == Some(effort_at(m, current)),
{
    let es = m.supported_efforts;
    let k = effort_step(m, current, direction)->0;
    let name = es[k].effort;
    let p = |e: EffortView| e.effort == name;
    assert forall|j: int| 0 <= j < k implies !p(es[j]) by {
        assert(es[j].effort != es[k].effort);
    }
    lemma_effort_pos(es, p, k);
    reveal(effort_pos);
}

fn find_effort_named(es: &Vec<ChatReasoningEffortInfo>, name: &str) -> (r: Option<usize>)
    ensures
        match r {
            Some(i) => i < es@.len() && effort_pos(effort_views(es@), |e: EffortView| e.effort == name@)
                == i && es@[i as int].effort@ == name@ && forall|j: int|
                0 <= j < i ==> #[trigger] es@[j].effort@ != name@,
            None => effort_pos(effort_views(es@), |e: EffortView| e.effort == name@) == -1
                && forall|j: int| 0 <= j < es@.len() ==> #[trigger] es@[j].effort@ != name@,
        },
{
    let ghost v = effort_views(es@);
    let ghost p = |e: EffortView| e.effort == name@;
    let mut i: usize = 0;
    while i < es.len()
        invariant
            i <= es@.len(),
            v == effort_views(es@),
            p == (|e: EffortView| e.effort == name@),
            forall|j: int| 0 <= j < i ==> !p(v[j]),
            forall|j: int| 0 <= j < i ==> #[trigger] es@[j].effort@ != name@,
        decreases es@.len() - i,
    {
        proof {
            assert(v[i as int].effort == es@[i as int].effort@);
        }
        if text_eq(es[i].effort.as_str(), name) {
            proof {
                lemma_effort_pos(v, p, i as int);
            }
            return Some(i);
        }
        i = i + 1;
    }
    proof {
        lemma_effort_pos(v, p, i as int);
    }
    None
}

fn find_default_effort(m: &ChatModelInfo) -> (r: Option<usize>)
    ensures
        match r {
            Some(i) => i < m.supported_efforts@.len() && effort_pos(
                effort_views(m.supported_efforts@),
                |e: EffortView| is_default_effort(opt_text(m.default_effort), e),
            ) == i,
            None => effort_pos(
                effort_views(m.supported_efforts@),
                |e: EffortView| is_default_effort(opt_text(m.default_effort), e),
            ) == -1,
        },
{
    let ghost v = effort_views(m.supported_efforts@);
    let ghost p = |e: EffortView| is_default_effort(opt_text(m.default_effort), e);
    match &m.default_effort {
        Some(d) => {
            let r = find_effort_named(&m.supported_efforts, d.as_str());
            proof {
                assert(p == (|e: EffortView| e.effort == d@)) by {
                    assert forall|e: EffortView| p(e) == (e.effort == d@) by {}
                }
            }
            r
        },
        None => {
            proof {
                assert forall|j: int| 0 <= j < v.len() implies !p(v[j]) by {}
                lemma_effort_pos(v, p, v.len() as int);
            }
            None
        },
    }
}

/// Moves the effort picker by `direction` within a model's efforts.
pub fn cycle_effort(model: &ChatModelInfo, current_effort: &str, direction: i32) -> (r: Option<
    ChatReasoningEffortInfo,
>)
    requires
        model.supported_efforts@.len() + direction <= i32::MAX,
    ensures
        match r {
            Some(e) => effort_step(model@, current_effort@, direction as int) matches Some(k)
                && e@ == model@.supported_efforts[k],
            None => effort_step(model@, current_effort@, direction as int) is None,
        },
{
    let options = &model.supported_efforts;
    if options.len() == 0 {
        return None;
    }
    proof {
        assert(model@.supported_efforts == effort_views(options@));
    }
    let at: usize = match find_effort_named(options, current_effort) {
        Some(i) => i,
        None => match find_default_effort(model) {
            Some(i) => i,
            None => 0,
        },
    };
    let next: i64 = at as i64 + direction as i64;
    if next < 0 || next >= options.len() as i64 {
        return None;
    }
    Some(copy_effort(&options[next as usize]))
}

/// The effort a model is first used with: `xhigh` where it offers it,
/// else its default, else its first effort, else `xhigh`.
pub open spec fn preferred_effort(m: ModelView) -> Seq<char> {
    if effort_pos(m.supported_efforts, |e: EffortView| e.effort == "xhigh"@) >= 0 {
        "xhigh"@
    } else {
        match m.default_effort {
            Some(d) => d,
            None => if m.supported_efforts.len() > 0 {
                m.supported_efforts[0].effort
            } else {
                "xhigh"@
            },
        }
    }
}

/// The effort a model is first used with.
pub fn preferred_effort_for_model(model: &ChatModelInfo) -> (r: String)
    ensures
        r@ == preferred_effort(model@),
{
    proof {
        reveal_strlit("xhigh");
        assert(model@.supported_efforts == effort_views(model.supported_efforts@));
    }
    let ghost v = effort_views(model.supported_efforts@);
    let ghost p = |e: EffortView| e.effort == "xhigh"@;
    match find_effort_named(&model.supported_efforts, "xhigh") {
        Some(i) => {
            proof {
                assert forall|j: int| 0 <= j < i implies !p(v[j]) by {
                    assert(v[j].effort == model.supported_efforts@[j].effort@);
                }
                lemma_effort_pos(v, p, i as int);
            }
            model.supported_efforts[i].effort.clone()
        },
        None => match &model.default_effort {
            Some(d) => {
                proof {
                    assert forall|j: int| 0 <= j < v.len() implies !p(v[j]) by {
                        assert(v[j].effort == model.supported_efforts@[j].effort@);
                    }
                    lemma_effort_pos(v, p, v.len() as int);
                }
                d.clone()
            },
            None => if model.supported_efforts.len() > 0 {
                model.supported_efforts[0].effort.clone()
            } else {
                literal("xhigh")
            },
        },
    }
}


/// Efforts named by `names`, without descriptions.
pub open spec fn named_efforts(names: Seq<Seq<char>>) -> Seq<EffortView> {
    names.map_values(|n: Seq<char>| EffortView { effort: n, description: Seq::empty() })
}

/// The efforts every model but the Pro one offers.
pub open spec fn all_efforts() -> Seq<Seq<char>> {
    seq!["none"@, "low"@, "medium"@, "high"@, "xhigh"@]
}

/// A model the interface knows without asking the app-server.
pub open spec fn known_model(
    id: Seq<char>,
    name: Seq<char>,
    default_effort: Seq<char>,
    efforts: Seq<Seq<char>>,
    is_default: bool,
) -> ModelView {
    ModelView {
        id,
        display_name: name,
        description: Seq::empty(),
        default_effort: Some(default_effort),
        supported_efforts: named_efforts(efforts),
        is_default,
    }
}

/// The description the interface has of a model it knows.
pub open spec fn fallback_model(id: Seq<char>) -> Option<ModelView> {
    if id == "gpt-5.4-pro"@ {
        Some(
            known_model(id, "GPT-5.4 Pro"@, "medium"@, seq!["medium"@, "high"@, "xhigh"@], false),
        )
    } else if id == "gpt-5.4"@ {
        Some(known_model(id, "GPT-5.4"@, "none"@, all_efforts(), true))
    } else if id == "gpt-5.4-mini"@ {
        Some(known_model(id, "GPT-5.4 Mini"@, "none"@, all_efforts(), false))
    } else if id == "gpt-5.4-nano"@ {
        Some(known_model(id, "GPT-5.4 Nano"@, "none"@, all_efforts(), false))
    } else {
        None
    }
}

/// Efforts with the given names and no descriptions.
pub fn reasoning_efforts(efforts: &Vec<&str>) -> (r: Vec<ChatReasoningEffortInfo>)
    ensures
        effort_views(r@) == named_efforts(efforts@.map_values(|e: &str| e@)),
{
    let mut out: Vec<ChatReasoningEffortInfo> = Vec::new();
    for i in 0..efforts.len()
        invariant
            effort_views(out@) == named_efforts(efforts@.map_values(|e: &str| e@)).take(i as int),
    {
        let ghost before = out@;
        out.push(ChatReasoningEffortInfo { effort: literal(efforts[i]), description: String::new() });
        proof {
            assert(effort_views(out@) == effort_views(before).push(
                EffortView { effort: efforts@[i as int]@, description: Seq::empty() },
            ));
            assert(named_efforts(efforts@.map_values(|e: &str| e@)).take(i + 1) == named_efforts(
                efforts@.map_values(|e: &str| e@),
            ).take(i as int).push(EffortView { effort: efforts@[i as int]@, description: Seq::empty() }));
        }
    }
    proof {
        assert(named_efforts(efforts@.map_values(|e: &str| e@)).take(efforts@.len() as int)
            == named_efforts(efforts@.map_values(|e: &str| e@)));
    }
    out
}

fn make_known(
    id: &str,
    name: &str,
    default_effort: &str,
    efforts: Vec<&str>,
    is_default: bool,
) -> (r: ChatModelInfo)
    ensures
        r@ == known_model(id@, name@, default_effort@, efforts@.map_values(|e: &str| e@), is_default),
{
    let supported = reasoning_efforts(&efforts);
    let r = ChatModelInfo {
        id: literal(id),
        display_name: literal(name),
        description: String::new(),
        default_effort: Some(literal(default_effort)),
        supported_efforts: supported,
        is_default,
    };
    proof {
        assert(r@.supported_efforts == named_efforts(efforts@.map_values(|e: &str| e@)));
    }
    r
}

/// The description the interface has of a model it knows.
pub fn fallback_model_by_id(model_id: &str) -> (r: Option<ChatModelInfo>)
    ensures
        match r {
            Some(m) => fallback_model(model_id@) == Some(m@),
            None => fallback_model(model_id@) is None,
        },
{
    proof {
        reveal_strlit("gpt-5.4-pro");
        reveal_strlit("gpt-5.4");
        reveal_strlit("gpt-5.4-mini");
        reveal_strlit("gpt-5.4-nano");
        reveal_strlit("none");
        reveal_strlit("low");
        reveal_strlit("medium");
        reveal_strlit("high");
        reveal_strlit("xhigh");
    }
    if text_eq(model_id, "gpt-5.4-pro") {
        let es: Vec<&str> = vec!["medium", "high", "xhigh"];
        proof {
            assert(es@.map_values(|e: &str| e@) == seq!["medium"@, "high"@, "xhigh"@]);
        }
        Some(make_known(model_id, "GPT-5.4 Pro", "medium", es, false))
    } else if text_eq(model_id, "gpt-5.4") {
        let es: Vec<&str> = vec!["none", "low", "medium", "high", "xhigh"];
        proof {
            assert(es@.map_values(|e: &str| e@) == all_efforts());
        }
        Some(make_known(model_id, "GPT-5.4", "none", es, true))
    } else if text_eq(model_id, "gpt-5.4-mini") {
        let es: Vec<&str> = vec!["none", "low", "medium", "high", "xhigh"];
        proof {
            assert(es@.map_values(|e: &str| e@) == all_efforts());
        }
        Some(make_known(model_id, "GPT-5.4 Mini", "none", es, false))
    } else if text_eq(model_id, "gpt-5.4-nano") {
        let es: Vec<&str> = vec!["none", "low", "medium", "high", "xhigh"];
        proof {
            assert(es@.map_values(|e: &str| e@) == all_efforts());
        }
        Some(make_known(model_id, "GPT-5.4 Nano", "none", es, false))
    } else {
        None
    }
}

/// The description of GPT-5.4, the model a chat starts with.
pub fn fallback_gpt54_model() -> (r: ChatModelInfo)
    ensures
        r@ == known_model("gpt-5.4"@, "GPT-5.4"@, "none"@, all_efforts(), true),
{
    proof {
        reveal_strlit("gpt-5.4");
        reveal_strlit("gpt-5.4-pro");
        reveal_strlit("none");
        reveal_strlit("low");
        reveal_strlit("medium");
        reveal_strlit("high");
        reveal_strlit("xhigh");
        assert("gpt-5.4"@ != "gpt-5.4-pro"@) by {
            assert("gpt-5.4"@.len() != "gpt-5.4-pro"@.len());
        }
        assert(fallback_model("gpt-5.4"@) == Some(
            known_model("gpt-5.4"@, "GPT-5.4"@, "none"@, all_efforts(), true),
        ));
    }
    match fallback_model_by_id("gpt-5.4") {
        Some(m) => m,
        None => {
            let es: Vec<&str> = vec!["none", "low", "medium", "high", "xhigh"];
            proof {
                assert(es@.map_values(|e: &str| e@) == all_efforts());
            }
            make_known("gpt-5.4", "GPT-5.4", "none", es, true)
        },
    }
}

/// The models the picker offers, in this order.
pub open spec fn ui_model_ids() -> Seq<Seq<char>> {
    seq!["gpt-5.4-pro"@, "gpt-5.4"@, "gpt-5.4-mini"@, "gpt-5.4-nano"@]
}

/// A picker model: the known description, with the app-server's
/// description where it gives a non-empty one, and marked default where
/// either says so.
pub open spec fn ui_model(live: Seq<ModelView>, id: Seq<char>) -> ModelView {
    let f = fallback_model(id)->0;
    let p = model_pos(live, id);
    if p >= 0 {
        ModelView {
            description: if live[p].description.len() > 0 {
                live[p].description
            } else {
                f.description
            },
            is_default: live[p].is_default || f.is_default,
            ..f
        }
    } else {
        f
    }
}

/// The models the picker offers, from what the app-server reported.
pub fn supported_ui_models(models: &Vec<ChatModelInfo>) -> (r: Vec<ChatModelInfo>)
    ensures
        model_views(r@) == ui_model_ids().map_values(|id: Seq<char>| ui_model(model_views(models@), id)),
{
    let ids: Vec<&str> = vec!["gpt-5.4-pro", "gpt-5.4", "gpt-5.4-mini", "gpt-5.4-nano"];
    proof {
        reveal_strlit("gpt-5.4-pro");
        reveal_strlit("gpt-5.4");
        reveal_strlit("gpt-5.4-mini");
        reveal_strlit("gpt-5.4-nano");
        assert(ids@.map_values(|e: &str| e@) == ui_model_ids());
    }
    let ghost target = ui_model_ids().map_values(|id: Seq<char>| ui_model(model_views(models@), id));
    let mut out: Vec<ChatModelInfo> = Vec::new();
    for i in 0..ids.len()
        invariant
            ids@.len() == 4,
            ids@.map_values(|e: &str| e@) == ui_model_ids(),
            target == ui_model_ids().map_values(|id: Seq<char>| ui_model(model_views(models@), id)),
            model_views(out@) == target.take(i as int),
    {
        let id = ids[i];
        proof {
            assert(id@ == ui_model_ids()[i as int]);
        }
        let mut m = match fallback_model_by_id(id) {
            Some(m) => m,
            None => {
                proof {
                    assert(false);
                }
                return out;
            },
        };
        match find_model(models, id) {
            Some(k) => {
                let live = &models[k];
                if chars_of(live.description.as_str()).len() > 0 {
                    m.description = live.description.clone();
                }
                m.is_default = live.is_default || m.is_default;
            },
            None => {},
        }
        let ghost before = out@;
        out.push(m);
        proof {
            assert(model_views(out@) == model_views(before).push(m@));
            assert(target.take(i + 1) == target.take(i as int).push(target[i as int]));
            assert(m@ == ui_model(model_views(models@), id@));
        }
    }
    proof {
        assert(target.take(4) == target);
    }
    out
}


pub(crate) proof fn lemma_decimal_digits(n: nat)
    ensures
        decimal(n).len() > 0,
        all_digits(decimal(n)),
        digits_value(decimal(n)) == n,
    decreases n,
{
    let k = n % 10;
    assert(digit(k) as u32 == k + 48);
    assert(is_digit(digit(k)));
    if n >= 10 {
        lemma_decimal_digits(n / 10);
        let d = decimal(n);
        assert(d.drop_last() == decimal(n / 10));
        assert(d.last() == digit(k));
        assert(n == (n / 10) * 10 + k);
        assert forall|i: int| 0 <= i < d.len() implies is_digit(#[trigger] d[i]) by {
            if i < d.len() - 1 {
                assert(d[i] == decimal(n / 10)[i]);
            }
        }
    } else {
        let d = decimal(n);
        assert(d == seq![digit(n)]);
        assert(d.drop_last().len() == 0);
        assert(digits_value(d.drop_last()) == 0);
    }
}

proof fn lemma_digits_trim(d: Seq<char>)
    requires
        all_digits(d),
    ensures
        trim(d) == d,
{
    assert forall|i: int| 0 <= i < d.len() implies !is_ws(#[trigger] d[i]) by {
        assert(is_digit(d[i]));
    }
    lemma_no_ws_trim(d);
}

proof fn lemma_no_ws_trim(d: Seq<char>)
    requires
        forall|i: int| 0 <= i < d.len() ==> !is_ws(#[trigger] d[i]),
    ensures
        trim(d) == d,
{
    if d.len() > 0 {
        assert(!is_ws(d[0]));
        assert(trim_start(d) == d);
        assert(!is_ws(d.last()));
        assert(trim_end(d) == d);
    } else {
        assert(trim_start(d) == d);
        assert(trim_end(d) == d);
    }
}

/// A limit field reads back the number it shows: the text of a number
/// above zero gives that number.
pub proof fn law_limit_reads_back(label: Seq<char>, v: u32)
    requires
        v > 0,
    ensures
        optional_limit(label, decimal(v as nat)) == Ok::<Option<u32>, Seq<char>>(Some(v)),
{
    lemma_decimal_digits(v as nat);
    lemma_digits_trim(decimal(v as nat));
    assert(decimal(v as nat)[0] != '+') by {
        assert(is_digit(decimal(v as nat)[0]));
    }
}

/// A number field keeps only digits.
pub proof fn law_sanitized_is_digits(s: Seq<char>)
    ensures
        all_digits(digits_only(s)),
    decreases s.len(),
{
    if s.len() > 0 {
        law_sanitized_is_digits(s.drop_last());
        let f = |c: char| if is_digit(c) { Some(c) } else { None };
        assert(s.filter_map(f) == if is_digit(s.last()) {
            s.drop_last().filter_map(f) + seq![s.last()]
        } else {
            s.drop_last().filter_map(f)
        });
        let r = s.drop_last().filter_map(f);
        if is_digit(s.last()) {
            assert forall|i: int| 0 <= i < (r + seq![s.last()]).len() implies is_digit(
                #[trigger] (r + seq![s.last()])[i],
            ) by {
                if i < r.len() {
                    assert((r + seq![s.last()])[i] == r[i]);
                }
            }
        }
    }
}

} // verus!
