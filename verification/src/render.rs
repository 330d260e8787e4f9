//! Plain-text renderings of authored effects and scopes, in the shape of their
//! derived `Debug` output: a variant name, then its fields in braces or
//! brackets, with integers in decimal and strings quoted and escaped.

use vstd::prelude::*;
use vstd::string::*;

use crate::schema::{EffectOp, Scope};
use crate::world::{Continent, Icon, Sector};

verus! {

// ------------------------------------------------------------ numbers

/// The decimal digit `d` as text.
pub open spec fn digit_text(d: int) -> Seq<char> {
    if d == 0 {
        "0"@
    } else if d == 1 {
        "1"@
    } else if d == 2 {
        "2"@
    } else if d == 3 {
        "3"@
    } else if d == 4 {
        "4"@
    } else if d == 5 {
        "5"@
    } else if d == 6 {
        "6"@
    } else if d == 7 {
        "7"@
    } else if d == 8 {
        "8"@
    } else if d == 9 {
        "9"@
    } else if d == 10 {
        "a"@
    } else if d == 11 {
        "b"@
    } else if d == 12 {
        "c"@
    } else if d == 13 {
        "d"@
    } else if d == 14 {
        "e"@
    } else {
        "f"@
    }
}

/// `n` written in base `radix`, most significant digit first, no padding.
pub open spec fn digits(n: nat, radix: nat) -> Seq<char>
    decreases n,
{
    if radix < 2 || n < radix {
        digit_text(n as int)
    } else {
        proof {
            assert(n / radix < n) by (nonlinear_arith)
                requires
                    radix >= 2,
                    n >= radix,
            ;
        }
        digits(n / radix, radix) + digit_text((n % radix) as int)
    }
}

/// `x` in decimal, with a leading `-` when negative.
pub open spec fn decimal(x: int) -> Seq<char> {
    if x < 0 {
        "-"@ + digits((-x) as nat, 10)
    } else {
        digits(x as nat, 10)
    }
}

fn digit_str(d: u64) -> (r: &'static str)
    requires
        d < 16,
    ensures
        r@ == digit_text(d as int),
{
    match d {
        0 => "0",
        1 => "1",
        2 => "2",
        3 => "3",
        4 => "4",
        5 => "5",
        6 => "6",
        7 => "7",
        8 => "8",
        9 => "9",
        10 => "a",
        11 => "b",
        12 => "c",
        13 => "d",
        14 => "e",
        _ => "f",
    }
}

fn push_digits(out: &mut String, n: u64, radix: u64)
    requires
        2 <= radix <= 16,
    ensures
        final(out)@ == old(out)@ + digits(n as nat, radix as nat),
    decreases n,
{
    if n < radix {
        out.append(digit_str(n));
    } else {
        assert(n / radix < n) by (nonlinear_arith)
            requires
                radix >= 2,
                n >= radix,
        ;
        push_digits(out, n / radix, radix);
        let ghost mid = out@;
        out.append(digit_str(n % radix));
        assert(out@ =~= old(out)@ + digits(n as nat, radix as nat));
    }
}

/// Append `x` in decimal.
pub fn push_decimal(out: &mut String, x: i64)
    ensures
        final(out)@ == old(out)@ + decimal(x as int),
{
    if x < 0 {
        out.append("-");
        let magnitude: u64 = (-(x as i128)) as u64;
        push_digits(out, magnitude, 10);
        assert(out@ =~= old(out)@ + decimal(x as int));
    } else {
        push_digits(out, x as u64, 10);
    }
}

// ------------------------------------------------------------ strings

/// Characters a quoted string shows by their code: the C0 and C1 control
/// characters, delete, and the invisible formatting characters (soft hyphen,
/// the Arabic letter mark, the Mongolian vowel separator, zero-width and
/// directional marks, word joiners and invisible operators, the byte-order
/// mark and the interlinear annotation marks).
pub open spec fn shown_by_code(x: u32) -> bool {
    x < 0x20 || (0x7f <= x && x <= 0x9f) || x == 0xad || x == 0x61c || x == 0x180e || (0x200b <= x
        && x <= 0x200f) || (0x2028 <= x && x <= 0x202e) || (0x2060 <= x && x <= 0x206f) || x == 0xfeff
        || (0xfff9 <= x && x <= 0xfffb)
}

/// One character of a quoted string: quotes, backslashes and the common
/// escapes by name, characters shown by code as `\u{..}`, the rest as they
/// are.
pub open spec fn escape_char(c: char) -> Seq<char> {
    if c == '"' {
        "\\\""@
    } else if c == '\\' {
        "\\\\"@
    } else if c == '\n' {
        "\\n"@
    } else if c == '\r' {
        "\\r"@
    } else if c == '\t' {
        "\\t"@
    } else if c == '\0' {
        "\\0"@
    } else if shown_by_code(c as u32) {
        "\\u{"@ + digits(c as nat, 16) + "}"@
    } else {
        seq![c]
    }
}

/// Every character of `s`, escaped, in order.
pub open spec fn escaped(s: Seq<char>) -> Seq<char>
    decreases s.len(),
{
    if s.len() == 0 {
        Seq::empty()
    } else {
        escaped(s.drop_last()) + escape_char(s.last())
    }
}

/// `s` in double quotes, escaped.
pub open spec fn quoted(s: Seq<char>) -> Seq<char> {
    "\""@ + escaped(s) + "\""@
}

fn shows_by_code(x: u32) -> (r: bool)
    ensures
        r == shown_by_code(x),
{
    x < 0x20 || (0x7f <= x && x <= 0x9f) || x == 0xad || x == 0x61c || x == 0x180e || (0x200b <= x
        && x <= 0x200f) || (0x2028 <= x && x <= 0x202e) || (0x2060 <= x && x <= 0x206f) || x == 0xfeff
        || (0xfff9 <= x && x <= 0xfffb)
}

fn push_escaped_char(out: &mut String, s: &str, i: usize)
    requires
        i < s@.len() <= usize::MAX,
    ensures
        final(out)@ == old(out)@ + escape_char(s@[i as int]),
{
    let c = s.get_char(i);
    if c == '"' {
        out.append("\\\"");
    } else if c == '\\' {
        out.append("\\\\");
    } else if c == '\n' {
        out.append("\\n");
    } else if c == '\r' {
        out.append("\\r");
    } else if c == '\t' {
        out.append("\\t");
    } else if c == '\0' {
        out.append("\\0");
    } else if shows_by_code(c as u32) {
        out.append("\\u{");
        push_digits(out, c as u32 as u64, 16);
        out.append("}");
        assert(out@ =~= old(out)@ + escape_char(c));
    } else {
        out.append(s.substring_char(i, i + 1));
        assert(s@.subrange(i as int, i + 1) =~= seq![c]);
    }
}

/// Append `s` in double quotes, escaped.
pub fn push_quoted(out: &mut String, s: &str)
    ensures
        final(out)@ == old(out)@ + quoted(s@),
{
    out.append("\"");
    let ghost start = out@;
    let n = s.unicode_len();
    let mut i: usize = 0;
    while i < n
        invariant
            n == s@.len(),
            i <= n,
            out@ == start + escaped(s@.subrange(0, i as int)),
        decreases n - i,
    {
        let ghost before = out@;
        push_escaped_char(out, s, i);
        assert(s@.subrange(0, i + 1).drop_last() =~= s@.subrange(0, i as int));
        assert(out@ =~= start + escaped(s@.subrange(0, i + 1)));
        i = i + 1;
    }
    assert(s@.subrange(0, n as int) =~= s@);
    out.append("\"");
    assert(out@ =~= old(out)@ + quoted(s@));
}

// ------------------------------------------------------------ enums

pub open spec fn icon_text(i: Icon) -> Seq<char> {
    match i {
        Icon::Knowledge => "Knowledge"@,
        Icon::Infrastructure => "Infrastructure"@,
        Icon::Workforce => "Workforce"@,
        Icon::Institutions => "Institutions"@,
    }
}

pub open spec fn sector_text(s: Sector) -> Seq<char> {
    match s {
        Sector::Power => "Power"@,
        Sector::TransportAndBuildings => "TransportAndBuildings"@,
        Sector::IndustryAndLand => "IndustryAndLand"@,
    }
}

pub open spec fn continent_text(c: Continent) -> Seq<char> {
    match c {
        Continent::Europe => "Europe"@,
        Continent::NorthAmerica => "NorthAmerica"@,
        Continent::MajorityWorld => "MajorityWorld"@,
    }
}

/// A scope: its variant name, and a continent in brackets where it has one.
pub open spec fn scope_text(s: Scope) -> Seq<char> {
    match s {
        Scope::Global => "Global"@,
        Scope::LeadContinent => "LeadContinent"@,
        Scope::Continent(c) => "Continent("@ + continent_text(c) + ")"@,
        Scope::AllContinents => "AllContinents"@,
        Scope::Spillover(c) => "Spillover("@ + continent_text(c) + ")"@,
    }
}

/// One integer field, `name: value`, followed by the closing brace.
pub open spec fn int_field_end(name: Seq<char>, x: int) -> Seq<char> {
    name + decimal(x) + " }"@
}

/// An effect: its variant name and its fields in braces.
pub open spec fn op_text(op: EffectOp) -> Seq<char> {
    match op {
        EffectOp::AddIcon { icon, amount } => "AddIcon { icon: "@ + icon_text(icon) + int_field_end(
            ", amount: "@,
            amount as int,
        ),
        EffectOp::RemoveIcon { icon, amount } => "RemoveIcon { icon: "@ + icon_text(icon)
            + int_field_end(", amount: "@, amount as int),
        EffectOp::ReduceSectorEmissions { sector, milli_gt } => "ReduceSectorEmissions { sector: "@
            + sector_text(sector) + int_field_end(", milli_gt: "@, milli_gt as int),
        EffectOp::AddFinanceIncome { milli_per_tick } => int_field_end(
            "AddFinanceIncome { milli_per_tick: "@,
            milli_per_tick as int,
        ),
        EffectOp::AddMandateIncome { milli_per_tick } => int_field_end(
            "AddMandateIncome { milli_per_tick: "@,
            milli_per_tick as int,
        ),
        EffectOp::AddMandateMaximum { milli } => int_field_end(
            "AddMandateMaximum { milli: "@,
            milli as int,
        ),
        EffectOp::AddMaintenance { milli_per_tick } => int_field_end(
            "AddMaintenance { milli_per_tick: "@,
            milli_per_tick as int,
        ),
        EffectOp::ModifyProjectCost { project, permille } => "ModifyProjectCost { project: "@
            + quoted(project@) + int_field_end(", permille: "@, permille as int),
        EffectOp::ModifyProjectDuration { project, permille } => "ModifyProjectDuration { project: "@
            + quoted(project@) + int_field_end(", permille: "@, permille as int),
        EffectOp::UnlockProject { project } => "UnlockProject { project: "@ + quoted(project@)
            + " }"@,
    }
}

/// The detail of a scope issue: the effect, then the scope it was given.
pub open spec fn scope_mismatch_text(op: EffectOp, scope: Scope) -> Seq<char> {
    op_text(op) + " with scope "@ + scope_text(scope)
}

fn icon_str(i: Icon) -> (r: &'static str)
    ensures
        r@ == icon_text(i),
{
    match i {
        Icon::Knowledge => "Knowledge",
        Icon::Infrastructure => "Infrastructure",
        Icon::Workforce => "Workforce",
        Icon::Institutions => "Institutions",
    }
}

fn sector_str(s: Sector) -> (r: &'static str)
    ensures
        r@ == sector_text(s),
{
    match s {
        Sector::Power => "Power",
        Sector::TransportAndBuildings => "TransportAndBuildings",
        Sector::IndustryAndLand => "IndustryAndLand",
    }
}

fn continent_str(c: Continent) -> (r: &'static str)
    ensures
        r@ == continent_text(c),
{
    match c {
        Continent::Europe => "Europe",
        Continent::NorthAmerica => "NorthAmerica",
        Continent::MajorityWorld => "MajorityWorld",
    }
}

fn push_scope(out: &mut String, s: Scope)
    ensures
        final(out)@ == old(out)@ + scope_text(s),
{
    match s {
        Scope::Global => out.append("Global"),
        Scope::LeadContinent => out.append("LeadContinent"),
        Scope::Continent(c) => {
            out.append("Continent(");
            out.append(continent_str(c));
            out.append(")");
            assert(out@ =~= old(out)@ + scope_text(s));
        },
        Scope::AllContinents => out.append("AllContinents"),
        Scope::Spillover(c) => {
            out.append("Spillover(");
            out.append(continent_str(c));
            out.append(")");
            assert(out@ =~= old(out)@ + scope_text(s));
        },
    }
}

fn push_int_field_end(out: &mut String, name: &str, x: i64)
    ensures
        final(out)@ == old(out)@ + int_field_end(name@, x as int),
{
    out.append(name);
    push_decimal(out, x);
    out.append(" }");
    assert(out@ =~= old(out)@ + int_field_end(name@, x as int));
}

fn push_op(out: &mut String, op: &EffectOp)
    ensures
        final(out)@ == old(out)@ + op_text(*op),
{
    match op {
        EffectOp::AddIcon { icon, amount } => {
            out.append("AddIcon { icon: ");
            out.append(icon_str(*icon));
            push_int_field_end(out, ", amount: ", *amount);
        },
        EffectOp::RemoveIcon { icon, amount } => {
            out.append("RemoveIcon { icon: ");
            out.append(icon_str(*icon));
            push_int_field_end(out, ", amount: ", *amount);
        },
        EffectOp::ReduceSectorEmissions { sector, milli_gt } => {
            out.append("ReduceSectorEmissions { sector: ");
            out.append(sector_str(*sector));
            push_int_field_end(out, ", milli_gt: ", *milli_gt);
        },
        EffectOp::AddFinanceIncome { milli_per_tick } => {
            push_int_field_end(out, "AddFinanceIncome { milli_per_tick: ", *milli_per_tick);
        },
        EffectOp::AddMandateIncome { milli_per_tick } => {
            push_int_field_end(out, "AddMandateIncome { milli_per_tick: ", *milli_per_tick);
        },
        EffectOp::AddMandateMaximum { milli } => {
            push_int_field_end(out, "AddMandateMaximum { milli: ", *milli);
        },
        EffectOp::AddMaintenance { milli_per_tick } => {
            push_int_field_end(out, "AddMaintenance { milli_per_tick: ", *milli_per_tick);
        },
        EffectOp::ModifyProjectCost { project, permille } => {
            out.append("ModifyProjectCost { project: ");
            push_quoted(out, project.as_str());
            push_int_field_end(out, ", permille: ", *permille);
        },
        EffectOp::ModifyProjectDuration { project, permille } => {
            out.append("ModifyProjectDuration { project: ");
            push_quoted(out, project.as_str());
            push_int_field_end(out, ", permille: ", *permille);
        },
        EffectOp::UnlockProject { project } => {
            out.append("UnlockProject { project: ");
            push_quoted(out, project.as_str());
            out.append(" }");
        },
    }
    assert(out@ =~= old(out)@ + op_text(*op));
}

/// The detail text of a scope issue: the effect, `with scope`, and the scope.
pub fn describe_scope_mismatch(op: &EffectOp, scope: Scope) -> (r: String)
    ensures
        r@ == scope_mismatch_text(*op, scope),
{
    let mut out = String::new();
    push_op(&mut out, op);
    out.append(" with scope ");
    push_scope(&mut out, scope);
    assert(out@ =~= scope_mismatch_text(*op, scope));
    out
}

} // verus!
