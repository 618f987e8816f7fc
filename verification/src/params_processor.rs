use vstd::prelude::*;

verus! {

/// Whether every character is an ASCII decimal digit.
pub open spec fn all_digits(d: Seq<char>) -> bool {
    forall|i: int| 0 <= i < d.len() ==> '0' <= #[trigger] d[i] <= '9'
}

/// The number that a string of decimal digits spells.
pub open spec fn decimal_value(d: Seq<char>) -> nat
    decreases d.len(),
{
    if d.len() == 0 {
        0
    } else {
        decimal_value(d.drop_last()) * 10 + (d.last() as nat - '0' as nat) as nat
    }
}

/// What `str::parse::<u32>` makes of a string: after an optional `+`, one or more ASCII
/// decimal digits spelling a number up to `u32::MAX`; anything else gives none.
pub open spec fn parsed_u32(s: Seq<char>) -> Option<u32> {
    let digits = if s.len() > 0 && s[0] == '+' { s.drop_first() } else { s };
    if digits.len() > 0 && all_digits(digits) && decimal_value(digits) <= u32::MAX {
        Some(decimal_value(digits) as u32)
    } else {
        None
    }
}

/// `str::parse::<u32>` (`u32::from_str`, radix 10), with the error dropped: an optional
/// leading `+`, then at least one ASCII digit, the value at most `u32::MAX`; a sign `-`,
/// an empty string, any other character or an overflow give the error.
#[verifier::external_body]
fn parse_u32(s: &str) -> (r: Option<u32>)
    ensures
        r == parsed_u32(s@),
{
    s.parse::<u32>().ok()
}

/// State of the command-line scan: inside a `bench` request, the bench depth, inside
/// `--options`, the pending option name, and the option updates met so far.
pub struct ScanState {
    pub bench: bool,
    pub bench_depth: u32,
    pub options: bool,
    pub option_name: Seq<char>,
    pub updates: Seq<(Seq<char>, Seq<char>)>,
}

/// Bench depth that a parsed depth argument gives: the number, or 5 where there is none.
pub open spec fn bench_depth_of(parsed: Option<u32>) -> u32 {
    match parsed {
        Some(v) => v,
        None => 5,
    }
}

/// The scan of one argument: `--options` opens the option list; `bench` asks for a bench
/// of depth 5 and closes the option list; the argument after `bench` sets its depth (5
/// where it is no number); inside the option list, arguments alternate between an option
/// name and its value.
pub open spec fn scan_step(st: ScanState, arg: Seq<char>) -> ScanState {
    if arg == "--options"@ {
        ScanState { options: true, ..st }
    } else if arg == "bench"@ {
        ScanState { bench: true, bench_depth: 5, options: false, ..st }
    } else {
        let depth = if st.bench {
            bench_depth_of(parsed_u32(arg))
        } else {
            st.bench_depth
        };
        if st.options {
            if st.option_name.len() == 0 {
                ScanState { bench: false, bench_depth: depth, option_name: arg, ..st }
            } else {
                ScanState {
                    bench: false,
                    bench_depth: depth,
                    option_name: Seq::empty(),
                    updates: st.updates.push((st.option_name, arg)),
                    ..st
                }
            }
        } else {
            ScanState { bench: false, bench_depth: depth, ..st }
        }
    }
}

/// The scan of all arguments, from the first to the last.
pub open spec fn scan(args: Seq<Seq<char>>) -> ScanState
    decreases args.len(),
{
    if args.len() == 0 {
        ScanState { bench: false, bench_depth: 0, options: false, option_name: Seq::empty(), updates: Seq::empty() }
    } else {
        scan_step(scan(args.drop_last()), args.last())
    }
}

/// What the command line asks for: the option updates, in order, and the depth of a
/// bench run (`0` for none).
pub struct ParamsPlan {
    pub option_updates: Vec<(String, String)>,
    pub bench_depth: u32,
}

pub struct ParamsProcessor;

impl ParamsProcessor {
    /// Bench depth from the parse of the argument after `bench`: the number, or 5.
    pub fn depth_or_default(parsed: Option<u32>) -> (r: u32)
        ensures
            r == bench_depth_of(parsed),
    {
        match parsed {
            Some(v) => v,
            None => 5,
        }
    }

    /// Reads the command-line arguments (the program path first) into the option updates
    /// and the bench depth that they ask for.
    pub fn execute(args: &Vec<String>) -> (r: ParamsPlan)
        ensures
            r.bench_depth == scan(args@.map_values(|a: String| a@)).bench_depth,
            r.option_updates@.len() == scan(args@.map_values(|a: String| a@)).updates.len(),
            forall|i: int| 0 <= i < r.option_updates@.len() ==> {
                &&& (#[trigger] r.option_updates@[i]).0@ == scan(args@.map_values(|a: String| a@)).updates[i].0
                &&& r.option_updates@[i].1@ == scan(args@.map_values(|a: String| a@)).updates[i].1
            },
    {
        let ghost views = args@.map_values(|a: String| a@);
        let options_flag = "--options".to_owned();
        let bench_flag = "bench".to_owned();
        let mut bench = false;
        let mut bench_depth: u32 = 0;
        let mut options = false;
        let mut option_name = String::new();
        let mut updates: Vec<(String, String)> = Vec::new();
        let mut i: usize = 0;
        while i < args.len()
            invariant
                i <= args@.len(),
                views == args@.map_values(|a: String| a@),
                options_flag@ == "--options"@,
                bench_flag@ == "bench"@,
                ({
                    let st = scan(views.take(i as int));
                    &&& st.bench == bench
                    &&& st.bench_depth == bench_depth
                    &&& st.options == options
                    &&& st.option_name == option_name@
                    &&& st.updates.len() == updates@.len()
                    &&& forall|k: int| 0 <= k < updates@.len() ==> (#[trigger] updates@[k]).0@ == st.updates[k].0
                        && updates@[k].1@ == st.updates[k].1
                }),
            decreases args@.len() - i,
        {
            let arg = args[i].clone();
            proof {
                assert(views.take(i + 1).drop_last() =~= views.take(i as int));
                assert(views.take(i + 1).last() == arg@);
            }
            if arg == options_flag {
                options = true;
            } else if arg == bench_flag {
                bench_depth = 5;
                options = false;
                bench = true;
            } else {
                if bench {
                    bench_depth = Self::depth_or_default(parse_u32(arg.as_str()));
                    bench = false;
                }
                if options {
                    if option_name.as_str().is_empty() {
                        option_name = arg;
                    } else {
                        updates.push((option_name, arg));
                        option_name = String::new();
                    }
                }
            }
            i = i + 1;
        }
        proof {
            assert(views.take(args@.len() as int) =~= views);
        }
        ParamsPlan { option_updates: updates, bench_depth }
    }
}

} // verus!
