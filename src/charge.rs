use vstd::prelude::*;

verus! {

/// Battery level, in percent, from which charge separation may be switched back on.
pub const SEPARATION_LEVEL: u8 = 70;

/// The pattern whose first group is the battery level in `dumpsys battery` output.
pub const LEVEL_PATTERN: &'static str = "level: (\\d+)";

/// Capture group 1 of the first match of the regular expression `pattern` in `text`;
/// `None` when the pattern does not compile or does not match.
pub uninterp spec fn regex_first_group(pattern: Seq<char>, text: Seq<char>) -> Option<Seq<char>>;

/// Relies on regex's `Regex::new` and `Regex::captures`: the text of group 1 of the
/// leftmost match, a function of the pattern and the text alone.
#[verifier::external_body]
fn first_group(pattern: &str, text: &str) -> (r: Option<String>)
    ensures
        match r {
            Some(g) => regex_first_group(pattern@, text@) == Some(g@),
            None => regex_first_group(pattern@, text@) is None,
        },
{
    let re = match regex::Regex::new(pattern) {
        Ok(re) => re,
        Err(_) => return None,
    };
    let caps = re.captures(text)?;
    caps.get(1).map(|m| m.as_str().to_owned())
}

/// The number that the decimal digits `d` spell.
pub open spec fn digits_value(d: Seq<char>) -> int
    decreases d.len(),
{
    if d.len() == 0 {
        0
    } else {
        digits_value(d.drop_last()) * 10 + (d.last() as int - '0' as int)
    }
}

/// What `u8::from_str` accepts: an optional `+`, then one or more ASCII digits whose
/// value is at most 255.
pub open spec fn u8_of(s: Seq<char>) -> Option<u8> {
    let d = if s.len() > 0 && s[0] == '+' {
        s.drop_first()
    } else {
        s
    };
    if d.len() > 0 && (forall|i: int| 0 <= i < d.len() ==> '0' <= #[trigger] d[i] <= '9')
        && digits_value(d) <= 255 {
        Some(digits_value(d) as u8)
    } else {
        None
    }
}

/// Relies on `str::parse::<u8>` (`u8::from_str`): an optional `+` and decimal digits,
/// rejected when empty, holding another character, or above 255.
#[verifier::external_body]
fn parse_u8(s: &str) -> (r: Option<u8>)
    ensures
        r == u8_of(s@),
{
    s.parse::<u8>().ok()
}

/// The battery level that a captured group of digits gives.
pub fn level_from_capture(group: &str) -> (r: Option<u8>)
    ensures
        r == u8_of(group@),
{
    parse_u8(group)
}

/// The battery level reported in `dumpsys battery` output.
pub fn parse_battery_level(output: &str) -> (r: Option<u8>)
    ensures
        r == match regex_first_group(LEVEL_PATTERN@, output@) {
            Some(g) => u8_of(g),
            None => None,
        },
{
    match first_group(LEVEL_PATTERN, output) {
        Some(g) => level_from_capture(g.as_str()),
        None => None,
    }
}

/// What to do at a battery level.
#[derive(Clone, Copy, Debug, PartialEq, Eq, Structural)]
pub enum ChargeStep {
    /// Below the threshold: turn charge separation off.
    SeparationOff,
    /// At or above it: read the switch, and turn separation on if it is off.
    CheckSwitch,
}

pub fn charge_step(level: u8) -> (r: ChargeStep)
    ensures
        r == (if level < SEPARATION_LEVEL {
            ChargeStep::SeparationOff
        } else {
            ChargeStep::CheckSwitch
        }),
{
    if level < SEPARATION_LEVEL {
        ChargeStep::SeparationOff
    } else {
        ChargeStep::CheckSwitch
    }
}

/// Whether the switch, as read with surrounding whitespace removed, says that charge
/// separation is off and must be turned on.
pub fn separation_needs_enabling(switch: &str) -> (r: bool)
    ensures
        r == (switch@ == seq!['0']),
{
    proof {
        reveal_strlit("0");
        assert("0"@ =~= seq!['0']);
    }
    switch.to_owned() == "0".to_owned()
}

} // verus!
