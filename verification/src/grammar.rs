//! The directive grammar, stated once as spec functions over character
//! sequences. Both directive parsers are proved against these definitions,
//! which differ only in the name of the trigger parameter key they accept.
//!
//! A directive line is `<marker> COMMAND MODE [key=value ...]`, where the
//! marker is `// torin ` after leading whitespace.

use vstd::prelude::*;

use crate::text::{is_int_str, int_is_negative, int_str_val, split_spec, starts_with,
    strip_prefix_all, trim_spec, trim_start_spec};

verus! {

// ---------------------------------------------------------------------------
// mathematical representations of parsed directives
// ---------------------------------------------------------------------------

pub ghost enum CommandRep {
    Delete,
    Error,
}

pub ghost struct DateRep {
    pub year: int,
    pub month: int,
    pub day: int,
}

pub ghost enum TriggerRep {
    Name(Seq<char>),
    Date(DateRep),
}

pub ghost enum TargetRep {
    Begin(TriggerRep),
    End,
    Neighbor(TriggerRep),
}

pub ghost struct DirectiveRep {
    pub command: CommandRep,
    pub target: TargetRep,
}

pub ghost struct ParamsRep {
    pub name: Option<Seq<char>>,
    pub date: Option<Seq<char>>,
}

/// A runtime environment that triggers are matched against: the current
/// date and the names held active.
pub ghost struct ContextRep {
    pub date: DateRep,
    pub names: Seq<Seq<char>>,
}

// ---------------------------------------------------------------------------
// calendar-date ordering
// ---------------------------------------------------------------------------

pub open spec fn date_lt(a: DateRep, b: DateRep) -> bool {
    a.year < b.year || (a.year == b.year && (a.month < b.month || (a.month == b.month
        && a.day < b.day)))
}

pub open spec fn date_le(a: DateRep, b: DateRep) -> bool {
    date_lt(a, b) || a == b
}

// ---------------------------------------------------------------------------
// the fixed words of the grammar
// ---------------------------------------------------------------------------

pub open spec fn marker() -> Seq<char> {
    "// torin "@
}

pub open spec fn key_rule() -> Seq<char> {
    "rule"@
}

pub open spec fn key_feature() -> Seq<char> {
    "feature"@
}

pub open spec fn key_date() -> Seq<char> {
    "date"@
}

/// A directive line: the marker after any leading whitespace.
pub open spec fn is_directive_spec(line: Seq<char>) -> bool {
    starts_with(trim_start_spec(line), marker())
}

/// The line's payload: trimmed, with every leading marker repetition removed.
pub open spec fn directive_body(line: Seq<char>) -> Seq<char> {
    strip_prefix_all(trim_spec(line), marker())
}

// ---------------------------------------------------------------------------
// parameters
// ---------------------------------------------------------------------------

/// One pass over the `key=value` parts, left to right, carrying the values
/// seen so far. A part that does not split into exactly two fields, an
/// unknown key, or a repeated key is an error.
pub open spec fn params_rec(
    parts: Seq<Seq<char>>,
    i: int,
    key: Seq<char>,
    name: Option<Seq<char>>,
    date: Option<Seq<char>>,
) -> Result<ParamsRep, ()>
    decreases parts.len() - i,
{
    if i < 0 || i >= parts.len() {
        Ok(ParamsRep { name, date })
    } else {
        let kv = split_spec(parts[i], '=');
        if kv.len() != 2 {
            Err(())
        } else if kv[0] == key {
            if name is Some {
                Err(())
            } else {
                params_rec(parts, i + 1, key, Some(kv[1]), date)
            }
        } else if kv[0] == key_date() {
            if date is Some {
                Err(())
            } else {
                params_rec(parts, i + 1, key, name, Some(kv[1]))
            }
        } else {
            Err(())
        }
    }
}

pub open spec fn params_spec(parts: Seq<Seq<char>>, key: Seq<char>) -> Result<ParamsRep, ()> {
    params_rec(parts, 0, key, None, None)
}

// ---------------------------------------------------------------------------
// dates
// ---------------------------------------------------------------------------

/// A date value splits on `-` into exactly a year, a month and a day,
/// each a decimal integer within its field's machine range.
pub open spec fn date_valid(s: Seq<char>) -> bool {
    let f = split_spec(s, '-');
    f.len() == 3 && is_int_str(f[0]) && i32::MIN <= int_str_val(f[0]) <= i32::MAX && is_int_str(
        f[1],
    ) && !int_is_negative(f[1]) && int_str_val(f[1]) <= u32::MAX && is_int_str(f[2])
        && !int_is_negative(f[2]) && int_str_val(f[2]) <= u32::MAX
}

pub open spec fn date_value(s: Seq<char>) -> DateRep {
    let f = split_spec(s, '-');
    DateRep { year: int_str_val(f[0]), month: int_str_val(f[1]), day: int_str_val(f[2]) }
}

// ---------------------------------------------------------------------------
// triggers, commands, targets
// ---------------------------------------------------------------------------

/// The trigger named by the parameters: exactly one of the two parameter
/// kinds must be present for a trigger to exist; both at once is an error,
/// as is a malformed date value.
pub open spec fn trigger_of_params(p: ParamsRep) -> Result<Option<TriggerRep>, ()> {
    match (p.name, p.date) {
        (Some(n), None) => Ok(Some(TriggerRep::Name(n))),
        (None, Some(d)) => if date_valid(d) {
            Ok(Some(TriggerRep::Date(date_value(d))))
        } else {
            Err(())
        },
        (Some(_), Some(_)) => Err(()),
        (None, None) => Ok(None),
    }
}

pub open spec fn command_of(tok: Seq<char>) -> Result<CommandRep, ()> {
    if tok == "DELETE"@ {
        Ok(CommandRep::Delete)
    } else if tok == "ERROR"@ {
        Ok(CommandRep::Error)
    } else {
        Err(())
    }
}

/// `BEGIN` and `NEIGHBOR` require a trigger; `END` forbids one.
pub open spec fn target_of(tok: Seq<char>, trig: Option<TriggerRep>) -> Result<TargetRep, ()> {
    if tok == "BEGIN"@ {
        match trig {
            Some(t) => Ok(TargetRep::Begin(t)),
            None => Err(()),
        }
    } else if tok == "END"@ {
        match trig {
            Some(_) => Err(()),
            None => Ok(TargetRep::End),
        }
    } else if tok == "NEIGHBOR"@ {
        match trig {
            Some(t) => Ok(TargetRep::Neighbor(t)),
            None => Err(()),
        }
    } else {
        Err(())
    }
}

// ---------------------------------------------------------------------------
// the whole directive
// ---------------------------------------------------------------------------

/// What a single line means: `Err` when the line carries the marker but is
/// not a well-formed directive, and also when it lacks the marker entirely
/// (parsers reject such lines before tokenizing).
pub open spec fn parse_directive(line: Seq<char>, key: Seq<char>) -> Result<DirectiveRep, ()> {
    if !is_directive_spec(line) {
        Err(())
    } else {
        let parts = split_spec(directive_body(line), ' ');
        if parts.len() < 2 {
            Err(())
        } else {
            match params_spec(parts.skip(2), key) {
                Err(_) => Err(()),
                Ok(ps) => match trigger_of_params(ps) {
                    Err(_) => Err(()),
                    Ok(trig) => match command_of(parts[0]) {
                        Err(_) => Err(()),
                        Ok(cmd) => match target_of(parts[1], trig) {
                            Err(_) => Err(()),
                            Ok(tgt) => Ok(DirectiveRep { command: cmd, target: tgt }),
                        },
                    },
                },
            }
        }
    }
}

/// A line that parses as a bare `END` directive, under the given key.
pub open spec fn is_end_directive(line: Seq<char>, key: Seq<char>) -> bool {
    match parse_directive(line, key) {
        Ok(d) => d.target is End,
        Err(_) => false,
    }
}

} // verus!
