//! Output-format selection for the check invocation: the format flags the
//! surrounding program receives on its command line are parsed here, and
//! everything else is passed through to the toolchain.

use vstd::prelude::*;
use vstd::string::*;
use crate::text::{
    chars_to_string, contains_sub, find_char_at, find_char_from, find_sub, match_at, opt_str,
    strs_of, subvec, to_char_vec, trim_chars, trim_spec,
};

verus! {

/// The output format of a check run.
#[derive(Debug, Clone, Copy, PartialEq, Eq, Structural)]
pub enum OutputFormat {
    /// Human-readable format, richly decorated on capable terminals.
    Human,
    /// Short human-readable format.
    Short,
    /// Machine format: transformed wire records.
    Json,
}

/// The comma-separated pieces of a format string.
pub open spec fn spec_split_commas(s: Seq<char>) -> Seq<Seq<char>>
    decreases s.len(),
    via spec_split_commas_dec
{
    match find_char_from(s, ',', 0) {
        Some(p) => seq![s.subrange(0, p)] + spec_split_commas(s.subrange(p + 1, s.len() as int)),
        None => seq![s],
    }
}

#[via_fn]
proof fn spec_split_commas_dec(s: Seq<char>) {
    lemma_find_comma_some(s, 0);
}

proof fn lemma_find_comma_some(s: Seq<char>, i: int)
    requires
        0 <= i <= s.len(),
    ensures
        find_char_from(s, ',', i) matches Some(p) ==> i <= p < s.len(),
    decreases s.len() - i,
{
    if i < s.len() && s[i] != ',' {
        lemma_find_comma_some(s, i + 1);
    }
}

/// The format the pieces select: the first piece starting with the machine
/// keyword wins, then the first short keyword; everything else is
/// human-readable.
pub open spec fn spec_format_decision(pieces: Seq<Seq<char>>, k: int) -> OutputFormat
    decreases pieces.len() - k,
    when 0 <= k <= pieces.len()
{
    if k >= pieces.len() {
        OutputFormat::Human
    } else {
        let t = trim_spec(pieces[k]);
        if t.len() >= "json"@.len() && match_at(t, "json"@, 0) {
            OutputFormat::Json
        } else if t == "short"@ {
            OutputFormat::Short
        } else {
            spec_format_decision(pieces, k + 1)
        }
    }
}

/// The format a comma-separated format string selects.
pub open spec fn spec_parse_format_string(s: Seq<char>) -> OutputFormat {
    spec_format_decision(spec_split_commas(s), 0)
}

/// Parses one format string.
#[verifier::loop_isolation(false)]
pub fn parse_format_string(format_str: &str) -> (r: OutputFormat)
    ensures
        r == spec_parse_format_string(format_str@),
    decreases format_str@.len(),
{
    let text = to_char_vec(format_str);
    parse_format_chars(&text)
}

fn parse_format_chars(text: &Vec<char>) -> (r: OutputFormat)
    ensures
        r == spec_format_decision(spec_split_commas(text@), 0),
    decreases text@.len(),
{
    let n = text.len();
    let (piece, rest): (Vec<char>, Option<Vec<char>>) = match find_char_at(text, ',', 0) {
        Some(p) => (subvec(text, 0, p), Some(subvec(text, p + 1, n))),
        None => {
            let w = subvec(text, 0, n);
            proof {
                assert(text@.subrange(0, text@.len() as int) =~= text@);
            }
            (w, None)
        },
    };
    let t = trim_chars(&piece);
    let json = to_char_vec("json");
    let is_json = json.len() <= t.len() && crate::text::match_here(&t, &json, 0);
    if is_json {
        proof {
            assert(spec_split_commas(text@)[0] == piece@);
        }
        return OutputFormat::Json;
    }
    let short = to_char_vec("short");
    let is_short = crate::error_formatting::chars_eq_pub(&t, &short);
    if is_short {
        proof {
            assert(spec_split_commas(text@)[0] == piece@);
        }
        return OutputFormat::Short;
    }
    proof {
        assert(spec_split_commas(text@)[0] == piece@);
    }
    match rest {
        Some(r2) => {
            let out = parse_format_chars(&r2);
            proof {
                let pieces = spec_split_commas(text@);
                let sub_pieces = spec_split_commas(r2@);
                lemma_split_commas_tail(text@);
                assert(pieces =~= seq![piece@] + sub_pieces);
                lemma_format_decision_shift(piece@, sub_pieces);
            }
            out
        },
        None => {
            proof {
                assert(spec_split_commas(text@) =~= seq![piece@]);
                assert(spec_format_decision(spec_split_commas(text@), 1) == OutputFormat::Human);
            }
            OutputFormat::Human
        },
    }
}

proof fn lemma_split_commas_tail(s: Seq<char>)
    requires
        find_char_from(s, ',', 0) is Some,
    ensures
        find_char_from(s, ',', 0) matches Some(p) && spec_split_commas(s) == seq![
            s.subrange(0, p),
        ] + spec_split_commas(s.subrange(p + 1, s.len() as int)),
{
    lemma_find_comma_some(s, 0);
}

proof fn lemma_format_decision_shift(head: Seq<char>, tail: Seq<Seq<char>>)
    requires
        !(trim_spec(head).len() >= "json"@.len() && match_at(trim_spec(head), "json"@, 0)),
        trim_spec(head) != "short"@,
    ensures
        spec_format_decision(seq![head] + tail, 0) == spec_format_decision(tail, 0),
{
    let pieces = seq![head] + tail;
    assert(pieces[0] == head);
    assert(spec_format_decision(pieces, 0) == spec_format_decision(pieces, 1));
    lemma_format_decision_suffix(head, tail, 0);
}

proof fn lemma_format_decision_suffix(head: Seq<char>, tail: Seq<Seq<char>>, k: int)
    requires
        0 <= k <= tail.len(),
    ensures
        spec_format_decision(seq![head] + tail, k + 1) == spec_format_decision(tail, k),
    decreases tail.len() - k,
{
    let pieces = seq![head] + tail;
    if k < tail.len() {
        assert(pieces[k + 1] == tail[k]);
        lemma_format_decision_suffix(head, tail, k + 1);
    }
}

/// The accumulated result of walking the argument list: the format chosen
/// so far and the arguments to pass through.
pub open spec fn spec_parse_message_format(
    args: Seq<Seq<char>>,
    i: int,
    fmt: OutputFormat,
    acc: Seq<Seq<char>>,
) -> (OutputFormat, Seq<Seq<char>>)
    decreases args.len() - i,
    when 0 <= i <= args.len()
{
    if i >= args.len() {
        (fmt, acc)
    } else if args[i] == "--message-format"@ {
        if i + 1 < args.len() {
            spec_parse_message_format(args, i + 2, spec_parse_format_string(args[i + 1]), acc)
        } else {
            spec_parse_message_format(args, i + 1, fmt, acc.push(args[i]))
        }
    } else if args[i].len() >= "--message-format="@.len() && match_at(
        args[i],
        "--message-format="@,
        0,
    ) {
        spec_parse_message_format(
            args,
            i + 1,
            spec_parse_format_string(
                args[i].subrange("--message-format="@.len() as int, args[i].len() as int),
            ),
            acc,
        )
    } else {
        spec_parse_message_format(args, i + 1, fmt, acc.push(args[i]))
    }
}

/// Parses the format flag out of an argument list; the chosen format and
/// the arguments to pass through to the toolchain.
#[verifier::loop_isolation(false)]
pub fn parse_message_format(args: &Vec<String>) -> (r: (OutputFormat, Vec<String>))
    ensures
        (r.0, strs_of(r.1@)) == spec_parse_message_format(
            strs_of(args@),
            0,
            OutputFormat::Human,
            Seq::empty(),
        ),
{
    let ghost av = strs_of(args@);
    let n = args.len();
    let flag = to_char_vec("--message-format");
    let flag_eq = to_char_vec("--message-format=");
    let mut output_format = OutputFormat::Human;
    let mut passthrough: Vec<String> = Vec::new();
    proof {
        assert(strs_of(passthrough@) =~= Seq::<Seq<char>>::empty());
    }
    let mut i: usize = 0;
    while i < n
        invariant
            0 <= i <= n,
            n == av.len(),
            av == strs_of(args@),
            flag@ == "--message-format"@,
            flag_eq@ == "--message-format="@,
            spec_parse_message_format(av, 0, OutputFormat::Human, Seq::empty())
                == spec_parse_message_format(av, i as int, output_format, strs_of(
                passthrough@,
            )),
        decreases n - i,
    {
        proof {
            assert(av[i as int] == args@[i as int]@);
        }
        let argv = to_char_vec(args[i].as_str());
        let is_flag = crate::error_formatting::chars_eq_pub(&argv, &flag);
        if is_flag {
            if i + 1 < n {
                proof {
                    assert(av[i as int + 1] == args@[i as int + 1]@);
                }
                output_format = parse_format_string(args[i + 1].as_str());
                i += 2;
                continue;
            }
        } else {
            let starts = flag_eq.len() <= argv.len() && crate::text::match_here(&argv, &flag_eq,
                0);
            if starts {
                let m = argv.len();
                let suffix = subvec(&argv, flag_eq.len(), m);
                let sfx = chars_to_string(&suffix);
                output_format = parse_format_string(sfx.as_str());
                i += 1;
                continue;
            }
        }
        let ghost prev = strs_of(passthrough@);
        passthrough.push(args[i].clone());
        proof {
            assert(strs_of(passthrough@) =~= prev.push(av[i as int]));
        }
        i += 1;
    }
    (output_format, passthrough)
}

} // verus!
