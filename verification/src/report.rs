//! Reporting a run of the properties: a verdict from a property result, measurements added
//! up, the first failure among several, the names of the properties, and the JSON line
//! that describes a run.

use vstd::prelude::*;
use crate::etna::{
    PropertyResult, property_duration_round_zero_no_panic, property_from_num_days_from_ce_no_panic,
    property_long_weekday_parses_full_name, property_parse_rfc3339_no_panic,
};
use crate::text::{chars_of, decimal, push_decimal};

verus! {

/// How many inputs a run tried and how long it took.
#[derive(Clone, Copy, Debug, PartialEq, Eq, Structural)]
pub struct Metrics {
    pub inputs: u64,
    pub elapsed_us: u128,
}

impl Default for Metrics {
    fn default() -> (m: Metrics)
        ensures
            m.inputs == 0,
            m.elapsed_us == 0,
    {
        Metrics { inputs: 0, elapsed_us: 0 }
    }
}

impl Metrics {
    /// The measurements of two runs together.
    pub fn combine(self, other: Metrics) -> (m: Metrics)
        requires
            self.inputs + other.inputs <= u64::MAX,
            self.elapsed_us + other.elapsed_us <= u128::MAX,
        ensures
            m.inputs == self.inputs + other.inputs,
            m.elapsed_us == self.elapsed_us + other.elapsed_us,
    {
        Metrics { inputs: self.inputs + other.inputs, elapsed_us: self.elapsed_us + other.elapsed_us }
    }
}

/// The verdict on a property result: a failure keeps its message; a pass and an input
/// outside the property are both fine.
pub fn to_err(p: PropertyResult) -> (r: Result<(), String>)
    ensures
        match p {
            PropertyResult::Fail(m) => r == Err::<(), String>(m),
            _ => r == Ok::<(), String>(()),
        },
{
    match p {
        PropertyResult::Pass | PropertyResult::Discard => Ok(()),
        PropertyResult::Fail(m) => Err(m),
    }
}

/// The message of the first failure in `results`, or `None` when there is none.
pub open spec fn first_failure(results: Seq<Result<(), String>>) -> Option<String>
    decreases results.len(),
{
    if results.len() == 0 {
        None
    } else if first_failure(results.drop_last()) is Some {
        first_failure(results.drop_last())
    } else {
        match results.last() {
            Err(m) => Some(m),
            Ok(_) => None,
        }
    }
}

/// A verdict holds the failure `f`: the message when there is one, else a pass.
pub open spec fn verdict_is(r: Result<(), String>, f: Option<String>) -> bool {
    match r {
        Ok(_) => f is None,
        Err(m) => f == Some(m),
    }
}

/// The inputs of all the runs in `outcomes`.
pub open spec fn total_inputs(outcomes: Seq<(Result<(), String>, Metrics)>) -> int
    decreases outcomes.len(),
{
    if outcomes.len() == 0 {
        0
    } else {
        total_inputs(outcomes.drop_last()) + outcomes.last().1.inputs
    }
}

/// The time of all the runs in `outcomes`.
pub open spec fn total_elapsed(outcomes: Seq<(Result<(), String>, Metrics)>) -> int
    decreases outcomes.len(),
{
    if outcomes.len() == 0 {
        0
    } else {
        total_elapsed(outcomes.drop_last()) + outcomes.last().1.elapsed_us
    }
}

/// The verdicts of the runs in `outcomes`, in order.
pub open spec fn verdicts(outcomes: Seq<(Result<(), String>, Metrics)>) -> Seq<Result<(), String>> {
    outcomes.map_values(|o: (Result<(), String>, Metrics)| o.0)
}

proof fn lemma_totals_grow(outcomes: Seq<(Result<(), String>, Metrics)>, i: int)
    requires
        0 <= i <= outcomes.len(),
    ensures
        total_inputs(outcomes.take(i)) <= total_inputs(outcomes),
        total_elapsed(outcomes.take(i)) <= total_elapsed(outcomes),
    decreases outcomes.len(),
{
    if i < outcomes.len() {
        assert(outcomes.drop_last().take(i) =~= outcomes.take(i));
        lemma_totals_grow(outcomes.drop_last(), i);
    } else {
        assert(outcomes.take(i) =~= outcomes);
    }
}

/// The runs of several properties together: the first failure among them, and their
/// measurements added up.
pub fn summarize(outcomes: Vec<(Result<(), String>, Metrics)>) -> (r: (Result<(), String>, Metrics))
    requires
        total_inputs(outcomes@) <= u64::MAX,
        total_elapsed(outcomes@) <= u128::MAX,
    ensures
        verdict_is(r.0, first_failure(verdicts(outcomes@))),
        r.1.inputs == total_inputs(outcomes@),
        r.1.elapsed_us == total_elapsed(outcomes@),
{
    let mut total = Metrics::default();
    let mut status: Result<(), String> = Ok(());
    let mut i: usize = 0;
    let ghost vs = verdicts(outcomes@);
    assert(outcomes@.take(0) =~= Seq::<(Result<(), String>, Metrics)>::empty());
    assert(vs.take(0) =~= Seq::<Result<(), String>>::empty());
    while i < outcomes.len()
        invariant
            i <= outcomes.len(),
            vs == verdicts(outcomes@),
            total_inputs(outcomes@) <= u64::MAX,
            total_elapsed(outcomes@) <= u128::MAX,
            total.inputs == total_inputs(outcomes@.take(i as int)),
            total.elapsed_us == total_elapsed(outcomes@.take(i as int)),
            verdict_is(status, first_failure(vs.take(i as int))),
        decreases outcomes.len() - i,
    {
        proof {
            assert(outcomes@.take(i + 1).drop_last() =~= outcomes@.take(i as int));
            assert(vs.take(i + 1).drop_last() =~= vs.take(i as int));
            assert(vs.take(i + 1).last() == outcomes@[i as int].0);
            lemma_totals_grow(outcomes@, i + 1);
        }
        let m = outcomes[i].1;
        total = total.combine(m);
        match &outcomes[i].0 {
            Err(msg) => {
                if status.is_ok() {
                    status = Err(msg.clone());
                }
            },
            Ok(_) => {},
        }
        i = i + 1;
    }
    proof {
        assert(outcomes@.take(i as int) =~= outcomes@);
        assert(vs.take(i as int) =~= vs);
    }
    (status, total)
}

/// The failure text for a property that a run does not know.
pub fn unknown_property_message(tool: &str, property: &str) -> (m: String)
    ensures
        m@ == "Unknown property for "@ + tool@ + ": "@ + property@,
{
    let mut m = String::new();
    m.append("Unknown property for ");
    m.append(tool);
    m.append(": ");
    m.append(property);
    m
}

/// The failure text for a tool that a run does not know.
pub fn unknown_tool_message(tool: &str) -> (m: String)
    ensures
        m@ == "Unknown tool: "@ + tool@,
{
    let mut m = String::new();
    m.append("Unknown tool: ");
    m.append(tool);
    m
}

/// How a run of a property-testing tool ended.
pub enum RunEnd {
    /// Every test that was asked for passed.
    Finished,
    /// A test failed; the failing input as the tool shows it.
    Failed(String),
    /// The tool stopped on an error of its own, described.
    Aborted(String),
    /// The run took longer than it was allowed.
    TimedOut,
    /// Too many inputs were discarded before enough tests passed.
    GaveUp { passed: u64, discarded: u64 },
}

/// The verdict on how a run ended, with the text of a failure.
pub open spec fn spec_run_end_verdict(e: RunEnd) -> Result<(), Seq<char>> {
    match e {
        RunEnd::Finished => Ok(()),
        RunEnd::Failed(shown) => Err("("@ + shown@ + ")"@),
        RunEnd::Aborted(why) => Err("aborted: "@ + why@),
        RunEnd::TimedOut => Err("timed out"@),
        RunEnd::GaveUp { passed, discarded } => Err(
            "gave up: passed="@ + decimal(passed as nat) + ", discarded="@ + decimal(discarded as nat),
        ),
    }
}

/// A verdict with the text of its failure taken by its view.
pub open spec fn verdict_view(r: Result<(), String>) -> Result<(), Seq<char>> {
    match r {
        Ok(_) => Ok(()),
        Err(m) => Err(m@),
    }
}

/// The verdict on how a run ended: a finished run passes; a failure shows the failing
/// input in brackets; the other ends say what happened.
pub fn run_end_verdict(e: RunEnd) -> (r: Result<(), String>)
    ensures
        verdict_view(r) == spec_run_end_verdict(e),
{
    match e {
        RunEnd::Finished => Ok(()),
        RunEnd::Failed(shown) => {
            let mut out = String::new();
            out.append("(");
            out.append(shown.as_str());
            out.append(")");
            Err(out)
        },
        RunEnd::Aborted(why) => {
            let mut out = String::new();
            out.append("aborted: ");
            out.append(why.as_str());
            Err(out)
        },
        RunEnd::TimedOut => Err(String::from_str("timed out")),
        RunEnd::GaveUp { passed, discarded } => {
            let mut out = String::new();
            out.append("gave up: passed=");
            push_decimal(&mut out, passed as u128);
            out.append(", discarded=");
            push_decimal(&mut out, discarded as u128);
            Err(out)
        },
    }
}

/// The words with which hegel begins the message of a failed property.
pub open spec fn hegel_failure_prefix() -> Seq<char> {
    "Property test failed: "@
}

/// The message of a failed hegel run without the words hegel puts before it, if it
/// begins with them.
pub fn hegel_failure_text(msg: &str) -> (r: String)
    ensures
        hegel_failure_prefix().is_prefix_of(msg@) ==> r@ == msg@.skip(hegel_failure_prefix().len() as int),
        !hegel_failure_prefix().is_prefix_of(msg@) ==> r@ == msg@,
{
    let prefix = chars_of("Property test failed: ");
    let m = chars_of(msg);
    let mut matched = prefix.len() <= m.len();
    let mut i: usize = 0;
    while matched && i < prefix.len()
        invariant
            i <= prefix.len(),
            prefix@ == hegel_failure_prefix(),
            m@ == msg@,
            matched ==> prefix.len() <= m.len(),
            matched ==> forall|j: int| 0 <= j < i ==> prefix@[j] == m@[j],
            !matched ==> !prefix@.is_prefix_of(m@),
        decreases (if matched { prefix.len() - i + 1 } else { 0int }),
    {
        if prefix[i] != m[i] {
            matched = false;
        } else {
            i = i + 1;
        }
    }
    let start: usize = if matched {
        assert(prefix@ =~= m@.take(prefix.len() as int));
        prefix.len()
    } else {
        0
    };
    let mut out = String::new();
    let mut k: usize = start;
    while k < m.len()
        invariant
            start <= k <= m.len(),
            out@ == m@.subrange(start as int, k as int),
        decreases m.len() - k,
    {
        out.push(m[k]);
        assert(out@ =~= m@.subrange(start as int, k + 1));
        k = k + 1;
    }
    assert(m@.subrange(0, m.len() as int) =~= m@);
    out
}

/// A property of the library that a run checks.
#[derive(Clone, Copy, Debug, PartialEq, Eq, Structural)]
pub enum Property {
    FromNumDaysFromCeNoPanic,
    ParseRfc3339NoPanic,
    DurationRoundZeroNoPanic,
    LongWeekdayParsesFullName,
}

/// The name by which a run asks for a property.
pub open spec fn property_name(p: Property) -> Seq<char> {
    match p {
        Property::FromNumDaysFromCeNoPanic => "FromNumDaysFromCeNoPanic"@,
        Property::ParseRfc3339NoPanic => "ParseRfc3339NoPanic"@,
        Property::DurationRoundZeroNoPanic => "DurationRoundZeroNoPanic"@,
        Property::LongWeekdayParsesFullName => "LongWeekdayParsesFullName"@,
    }
}

/// Whether `a` and `b` hold the same text.
pub fn same_text(a: &str, b: &str) -> (r: bool)
    ensures
        r == (a@ == b@),
{
    let x = chars_of(a);
    let y = chars_of(b);
    if x.len() != y.len() {
        assert(a@.len() != b@.len());
        return false;
    }
    let mut i: usize = 0;
    while i < x.len()
        invariant
            i <= x.len(),
            x.len() == y.len(),
            x@ == a@,
            y@ == b@,
            forall|j: int| 0 <= j < i ==> x@[j] == y@[j],
        decreases x.len() - i,
    {
        if x[i] != y[i] {
            assert(x@[i as int] != y@[i as int]);
            assert(a@ != b@);
            return false;
        }
        i = i + 1;
    }
    assert(x@ =~= y@);
    true
}

impl Property {
    /// The properties in the order a run of all of them takes.
    pub fn all() -> (ps: Vec<Property>)
        ensures
            ps@ == seq![
                Property::FromNumDaysFromCeNoPanic,
                Property::ParseRfc3339NoPanic,
                Property::DurationRoundZeroNoPanic,
                Property::LongWeekdayParsesFullName,
            ],
    {
        let ps = vec![
            Property::FromNumDaysFromCeNoPanic,
            Property::ParseRfc3339NoPanic,
            Property::DurationRoundZeroNoPanic,
            Property::LongWeekdayParsesFullName,
        ];
        assert(ps@ =~= seq![
            Property::FromNumDaysFromCeNoPanic,
            Property::ParseRfc3339NoPanic,
            Property::DurationRoundZeroNoPanic,
            Property::LongWeekdayParsesFullName,
        ]);
        ps
    }

    /// The name by which a run asks for this property.
    pub fn name(&self) -> (n: &'static str)
        ensures
            n@ == property_name(*self),
    {
        match self {
            Property::FromNumDaysFromCeNoPanic => "FromNumDaysFromCeNoPanic",
            Property::ParseRfc3339NoPanic => "ParseRfc3339NoPanic",
            Property::DurationRoundZeroNoPanic => "DurationRoundZeroNoPanic",
            Property::LongWeekdayParsesFullName => "LongWeekdayParsesFullName",
        }
    }

    /// The property with the name `name`, if any.
    pub fn from_name(name: &str) -> (r: Option<Property>)
        ensures
            r matches Some(p) ==> property_name(p) == name@,
            r is None ==> forall|p: Property| property_name(p) != name@,
    {
        let all = Property::all();
        let mut i: usize = 0;
        while i < all.len()
            invariant
                i <= all.len(),
                all@ == seq![
                    Property::FromNumDaysFromCeNoPanic,
                    Property::ParseRfc3339NoPanic,
                    Property::DurationRoundZeroNoPanic,
                    Property::LongWeekdayParsesFullName,
                ],
                forall|j: int| 0 <= j < i ==> property_name(#[trigger] all@[j]) != name@,
            decreases all.len() - i,
        {
            let p = all[i];
            if same_text(p.name(), name) {
                return Some(p);
            }
            i = i + 1;
        }
        proof {
            assert forall|p: Property| property_name(p) != name@ by {
                match p {
                    Property::FromNumDaysFromCeNoPanic => assert(all@[0] == p),
                    Property::ParseRfc3339NoPanic => assert(all@[1] == p),
                    Property::DurationRoundZeroNoPanic => assert(all@[2] == p),
                    Property::LongWeekdayParsesFullName => assert(all@[3] == p),
                }
            }
        }
        None
    }

    /// The property checked on its frozen witness input: the largest `i32` day count, a
    /// date and time followed by two two-byte characters, the moment 1970-01-01T00:00:00,
    /// and the row of Sunday in the table of weekday names.
    pub fn check_witness(&self) -> (r: PropertyResult)
        ensures
            r is Pass,
    {
        match self {
            Property::FromNumDaysFromCeNoPanic => property_from_num_days_from_ce_no_panic(i32::MAX),
            Property::ParseRfc3339NoPanic => property_parse_rfc3339_no_panic(
                String::from_str("2024-01-01T00:00:00 \u{c4}\u{c4}"),
            ),
            Property::DurationRoundZeroNoPanic => property_duration_round_zero_no_panic(0),
            Property::LongWeekdayParsesFullName => property_long_weekday_parses_full_name(6),
        }
    }
}

/// The lowercase hexadecimal digit of `d` (0 to 15).
pub open spec fn hex_digit(d: int) -> char {
    if d < 10 {
        (d + 48) as char
    } else {
        (d + 87) as char
    }
}

/// A character as it stands inside a JSON string: quote, backslash, newline, carriage
/// return and tab by their short escapes, other control characters as `\u00XX`.
pub open spec fn json_escape_char(c: char) -> Seq<char> {
    if c == '"' {
        seq!['\\', '"']
    } else if c == '\\' {
        seq!['\\', '\\']
    } else if c == '\n' {
        seq!['\\', 'n']
    } else if c == '\r' {
        seq!['\\', 'r']
    } else if c == '\t' {
        seq!['\\', 't']
    } else if (c as u32) < 0x20 {
        seq!['\\', 'u', '0', '0', hex_digit(((c as u32) / 16) as int), hex_digit(((c as u32) % 16) as int)]
    } else {
        seq![c]
    }
}

/// The characters of `s` as they stand inside a JSON string.
pub open spec fn json_escape(s: Seq<char>) -> Seq<char>
    decreases s.len(),
{
    if s.len() == 0 {
        Seq::empty()
    } else {
        json_escape(s.drop_last()) + json_escape_char(s.last())
    }
}

/// `s` as a JSON string: in quotes, with the characters escaped.
pub open spec fn json_quote(s: Seq<char>) -> Seq<char> {
    seq!['"'] + json_escape(s) + seq!['"']
}

fn hex_digit_exec(d: u32) -> (c: char)
    requires
        d < 16,
    ensures
        c == hex_digit(d as int),
{
    if d < 10 {
        ((d + 48) as u8) as char
    } else {
        ((d + 87) as u8) as char
    }
}

/// Appends `c` as it stands inside a JSON string.
fn push_json_char(out: &mut String, c: char)
    ensures
        final(out)@ == old(out)@ + json_escape_char(c),
{
    if c == '"' {
        out.push('\\');
        out.push('"');
    } else if c == '\\' {
        out.push('\\');
        out.push('\\');
    } else if c == '\n' {
        out.push('\\');
        out.push('n');
    } else if c == '\r' {
        out.push('\\');
        out.push('r');
    } else if c == '\t' {
        out.push('\\');
        out.push('t');
    } else if (c as u32) < 0x20 {
        out.push('\\');
        out.push('u');
        out.push('0');
        out.push('0');
        out.push(hex_digit_exec((c as u32) / 16));
        out.push(hex_digit_exec((c as u32) % 16));
    } else {
        out.push(c);
    }
    assert(final(out)@ =~= old(out)@ + json_escape_char(c));
}

/// `s` as a JSON string.
pub fn json_str(s: &str) -> (out: String)
    ensures
        out@ == json_quote(s@),
{
    let chars = chars_of(s);
    let mut out = String::new();
    out.push('"');
    let mut i: usize = 0;
    while i < chars.len()
        invariant
            i <= chars.len(),
            out@ == seq!['"'] + json_escape(chars@.take(i as int)),
        decreases chars.len() - i,
    {
        proof {
            assert(chars@.take(i + 1).drop_last() =~= chars@.take(i as int));
        }
        push_json_char(&mut out, chars[i]);
        i = i + 1;
        assert(out@ =~= seq!['"'] + json_escape(chars@.take(i as int)));
    }
    out.push('"');
    assert(chars@.take(i as int) =~= s@);
    assert(out@ =~= json_quote(s@));
    out
}

/// The value of the hexadecimal digit `c` (either case), if it is one.
pub open spec fn hex_value(c: char) -> Option<int> {
    let u = c as u32;
    if 0x30 <= u <= 0x39 {
        Some(u - 0x30)
    } else if 0x61 <= u <= 0x66 {
        Some(u - 0x61 + 10)
    } else if 0x41 <= u <= 0x46 {
        Some(u - 0x41 + 10)
    } else {
        None
    }
}

/// The number that the four hexadecimal digits at `i` of `t` write, if they are four.
pub open spec fn hex4(t: Seq<char>, i: int) -> Option<int> {
    if 0 <= i && i + 4 <= t.len() && hex_value(t[i]) is Some && hex_value(t[i + 1]) is Some
        && hex_value(t[i + 2]) is Some && hex_value(t[i + 3]) is Some {
        Some(
            4096 * hex_value(t[i])->0 + 256 * hex_value(t[i + 1])->0 + 16 * hex_value(t[i + 2])->0
                + hex_value(t[i + 3])->0,
        )
    } else {
        None
    }
}

/// `c` before the text that `r` holds, if it holds one.
pub open spec fn prepend(c: char, r: Option<Seq<char>>) -> Option<Seq<char>> {
    match r {
        Some(rest) => Some(seq![c] + rest),
        None => None,
    }
}

/// The character of an escape `\x` for a letter or sign `x` other than `u`.
pub open spec fn short_escape(x: char) -> Option<char> {
    if x == '"' {
        Some('"')
    } else if x == '\\' {
        Some('\\')
    } else if x == '/' {
        Some('/')
    } else if x == 'b' {
        Some('\x08')
    } else if x == 'f' {
        Some('\x0c')
    } else if x == 'n' {
        Some('\n')
    } else if x == 'r' {
        Some('\r')
    } else if x == 't' {
        Some('\t')
    } else {
        None
    }
}

/// The text that the inside of a JSON string (RFC 8259) writes, or `None` when it is not
/// one: a quote or a control character must be escaped; the escapes are `\"`, `\\`, `\/`,
/// `\b`, `\f`, `\n`, `\r`, `\t` and `\u` with four hexadecimal digits, where a character
/// beyond U+FFFF is written as a surrogate pair.
pub open spec fn json_unescape(t: Seq<char>) -> Option<Seq<char>>
    decreases t.len(),
{
    if t.len() == 0 {
        Some(Seq::empty())
    } else if t[0] == '\\' {
        if t.len() < 2 {
            None
        } else if t[1] == 'u' {
            match hex4(t, 2) {
                None => None,
                Some(v) => if 0xD800 <= v < 0xDC00 {
                    if t.len() >= 12 && t[6] == '\\' && t[7] == 'u' && hex4(t, 8) is Some
                        && 0xDC00 <= hex4(t, 8)->0 < 0xE000 {
                        prepend(
                            (0x10000 + (v - 0xD800) * 0x400 + (hex4(t, 8)->0 - 0xDC00)) as char,
                            json_unescape(t.skip(12)),
                        )
                    } else {
                        None
                    }
                } else if 0xDC00 <= v < 0xE000 {
                    None
                } else {
                    prepend(v as char, json_unescape(t.skip(6)))
                },
            }
        } else {
            match short_escape(t[1]) {
                Some(c) => prepend(c, json_unescape(t.skip(2))),
                None => None,
            }
        }
    } else if t[0] == '"' || (t[0] as u32) < 0x20 {
        None
    } else {
        prepend(t[0], json_unescape(t.skip(1)))
    }
}

/// The text that the JSON string `q` (RFC 8259) writes, or `None` when `q` is not one.
pub open spec fn json_decode(q: Seq<char>) -> Option<Seq<char>> {
    if q.len() >= 2 && q[0] == '"' && q[q.len() - 1] == '"' {
        json_unescape(q.subrange(1, q.len() - 1))
    } else {
        None
    }
}

proof fn lemma_json_escape_prepend(c: char, s: Seq<char>)
    ensures
        json_escape(seq![c] + s) == json_escape_char(c) + json_escape(s),
    decreases s.len(),
{
    if s.len() == 0 {
        assert(seq![c] + s =~= seq![c]);
        assert(seq![c].drop_last() =~= Seq::<char>::empty());
        assert(json_escape(Seq::<char>::empty()) =~= Seq::<char>::empty());
        assert(json_escape(seq![c]) == json_escape(Seq::<char>::empty()) + json_escape_char(c));
        assert(json_escape(seq![c]) =~= json_escape_char(c));
        assert(json_escape_char(c) + json_escape(s) =~= json_escape_char(c));
    } else {
        let t = seq![c] + s;
        assert(t.drop_last() =~= seq![c] + s.drop_last());
        assert(t.last() == s.last());
        lemma_json_escape_prepend(c, s.drop_last());
        assert(json_escape(t) =~= json_escape_char(c) + json_escape(s));
    }
}

proof fn lemma_hex_digit_value(d: int)
    requires
        0 <= d < 16,
    ensures
        hex_value(hex_digit(d)) == Some(d),
        hex_digit(d) as u32 >= 0x30,
{
}

proof fn lemma_unescape_char(c: char, rest: Seq<char>)
    ensures
        json_unescape(json_escape_char(c) + rest) == prepend(c, json_unescape(rest)),
{
    let t = json_escape_char(c) + rest;
    let u = c as u32;
    if c == '"' || c == '\\' || c == '\n' || c == '\r' || c == '\t' {
        assert(t.skip(2) =~= rest);
    } else if u < 0x20 {
        let hi = (u / 16) as int;
        let lo = (u % 16) as int;
        lemma_hex_digit_value(hi);
        lemma_hex_digit_value(lo);
        assert(t[2] == '0' && t[3] == '0' && t[4] == hex_digit(hi) && t[5] == hex_digit(lo));
        assert(hex_value('0') == Some(0int));
        assert(hex4(t, 2) == Some(u as int));
        assert(t.skip(6) =~= rest);
        assert((u as int) as char == c);
    } else {
        assert(t[0] == c);
        assert(t.skip(1) =~= rest);
    }
}

proof fn lemma_unescape_escape(s: Seq<char>)
    ensures
        json_unescape(json_escape(s)) == Some(s),
    decreases s.len(),
{
    if s.len() == 0 {
        assert(json_escape(s) =~= Seq::<char>::empty());
    } else {
        let tail = s.skip(1);
        assert(s =~= seq![s[0]] + tail);
        lemma_json_escape_prepend(s[0], tail);
        lemma_unescape_char(s[0], json_escape(tail));
        lemma_unescape_escape(tail);
    }
}

proof fn lemma_escape_printable(s: Seq<char>)
    ensures
        forall|i: int| 0 <= i < json_escape(s).len() ==> (#[trigger] json_escape(s)[i] as u32) >= 0x20,
    decreases s.len(),
{
    if s.len() > 0 {
        lemma_escape_printable(s.drop_last());
        let c = s.last();
        let u = c as u32;
        let e = json_escape_char(c);
        if u < 0x20 && !(c == '"' || c == '\\' || c == '\n' || c == '\r' || c == '\t') {
            lemma_hex_digit_value((u / 16) as int);
            lemma_hex_digit_value((u % 16) as int);
        }
        assert forall|i: int| 0 <= i < e.len() implies (#[trigger] e[i] as u32) >= 0x20 by {}
        let a = json_escape(s.drop_last());
        assert forall|i: int| 0 <= i < json_escape(s).len() implies (#[trigger] json_escape(s)[i] as u32) >= 0x20 by {
            if i < a.len() {
                assert(json_escape(s)[i] == a[i]);
            } else {
                assert(json_escape(s)[i] == e[i - a.len()]);
            }
        }
    }
}

/// The JSON string that `json_str` writes is in quotes, holds no control character, and
/// reads back, as RFC 8259 decodes it, as the text it was made from.
pub proof fn law_json_quote_decodes(s: Seq<char>)
    ensures
        json_quote(s).len() >= 2,
        json_quote(s)[0] == '"',
        json_quote(s)[json_quote(s).len() - 1] == '"',
        forall|i: int| 0 <= i < json_quote(s).len() ==> (#[trigger] json_quote(s)[i] as u32) >= 0x20,
        json_decode(json_quote(s)) == Some(s),
{
    let q = json_quote(s);
    let e = json_escape(s);
    lemma_escape_printable(s);
    lemma_unescape_escape(s);
    assert(q.subrange(1, q.len() - 1) =~= e);
    assert forall|i: int| 0 <= i < q.len() implies (#[trigger] q[i] as u32) >= 0x20 by {
        if 0 < i < q.len() - 1 {
            assert(q[i] == e[i - 1]);
        }
    }
}

/// Two texts with the same JSON string are the same text.
pub proof fn law_json_quote_injective(a: Seq<char>, b: Seq<char>)
    requires
        json_quote(a) == json_quote(b),
    ensures
        a == b,
{
    law_json_quote_decodes(a);
    law_json_quote_decodes(b);
}

/// A text that may be missing, in JSON: `null`, or the text as a JSON string.
pub open spec fn json_opt(s: Option<Seq<char>>) -> Seq<char> {
    match s {
        Some(t) => json_quote(t),
        None => "null"@,
    }
}

/// The JSON line that reports a run: its status, the inputs tried, no discards, the time
/// in microseconds, the counterexample and the error (each `null` when missing), and the
/// tool and the property.
pub open spec fn json_line(
    tool: Seq<char>,
    property: Seq<char>,
    status: Seq<char>,
    metrics: Metrics,
    counterexample: Option<Seq<char>>,
    error: Option<Seq<char>>,
) -> Seq<char> {
    "{\"status\":"@ + json_quote(status) + ",\"tests\":"@ + decimal(metrics.inputs as nat)
        + ",\"discards\":0,\"time\":"@ + json_quote(decimal(metrics.elapsed_us as nat) + "us"@)
        + ",\"counterexample\":"@ + json_opt(counterexample) + ",\"error\":"@ + json_opt(error)
        + ",\"tool\":"@ + json_quote(tool) + ",\"property\":"@ + json_quote(property) + "}"@
}

/// The view of a text that may be missing.
pub open spec fn opt_view(s: Option<&str>) -> Option<Seq<char>> {
    match s {
        Some(t) => Some(t@),
        None => None,
    }
}

/// Appends a text that may be missing, in JSON.
fn push_json_opt(out: &mut String, s: Option<&str>)
    ensures
        final(out)@ == old(out)@ + json_opt(opt_view(s)),
{
    match s {
        Some(t) => {
            let q = json_str(t);
            out.append(q.as_str());
        },
        None => {
            out.append("null");
        },
    }
}

/// The JSON line that reports a run.
pub fn run_report(
    tool: &str,
    property: &str,
    status: &str,
    metrics: Metrics,
    counterexample: Option<&str>,
    error: Option<&str>,
) -> (out: String)
    ensures
        out@ == json_line(tool@, property@, status@, metrics, opt_view(counterexample), opt_view(error)),
{
    let mut out = String::new();
    out.append("{\"status\":");
    out.append(json_str(status).as_str());
    out.append(",\"tests\":");
    push_decimal(&mut out, metrics.inputs as u128);
    out.append(",\"discards\":0,\"time\":");
    let mut time = String::new();
    push_decimal(&mut time, metrics.elapsed_us);
    time.append("us");
    let quoted_time = json_str(time.as_str());
    assert(time@ =~= decimal(metrics.elapsed_us as nat) + "us"@);
    out.append(quoted_time.as_str());
    out.append(",\"counterexample\":");
    push_json_opt(&mut out, counterexample);
    out.append(",\"error\":");
    push_json_opt(&mut out, error);
    out.append(",\"tool\":");
    out.append(json_str(tool).as_str());
    out.append(",\"property\":");
    out.append(json_str(property).as_str());
    out.append("}");
    assert(out@ =~= json_line(tool@, property@, status@, metrics, opt_view(counterexample), opt_view(error)));
    out
}

} // verus!
