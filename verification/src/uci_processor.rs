use vstd::prelude::*;
use vstd::string::StringExecFns;

verus! {

/// FEN of the initial chess position.
pub const START_FEN: &'static str = "rnbqkbnr/pppppppp/8/8/8/8/PPPPPPPP/RNBQKBNR w KQkq - 0 1";

/// State of the scan of a `position` command: the FEN text, the move texts, and whether
/// the scan is inside the FEN or inside the move list.
pub struct PositionScan {
    pub fen: Seq<char>,
    pub moves: Seq<Seq<char>>,
    pub in_fen: bool,
    pub in_moves: bool,
}

/// The scan of one argument of `position`: `startpos` sets the initial FEN, `fen` opens
/// the FEN (each later word is added to it, followed by a space), `moves` opens the move
/// list.
pub open spec fn position_step(st: PositionScan, arg: Seq<char>) -> PositionScan {
    if arg == "startpos"@ {
        PositionScan { fen: START_FEN@, ..st }
    } else if arg == "fen"@ {
        PositionScan { in_fen: true, in_moves: false, ..st }
    } else if arg == "moves"@ {
        PositionScan { in_fen: false, in_moves: true, ..st }
    } else {
        let fen = if st.in_fen { st.fen + arg + " "@ } else { st.fen };
        let moves = if st.in_moves { st.moves.push(arg) } else { st.moves };
        PositionScan { fen, moves, ..st }
    }
}

pub open spec fn position_scan(args: Seq<Seq<char>>) -> PositionScan
    decreases args.len(),
{
    if args.len() == 0 {
        PositionScan { fen: Seq::empty(), moves: Seq::empty(), in_fen: false, in_moves: false }
    } else {
        position_step(position_scan(args.drop_last()), args.last())
    }
}

pub struct UciProcessor;

impl UciProcessor {
    /// The FEN and the move texts that the arguments of a `position` command give.
    pub fn position_arguments(args: &Vec<String>) -> (r: (String, Vec<String>))
        ensures
            r.0@ == position_scan(args@.map_values(|a: String| a@)).fen,
            r.1@.len() == position_scan(args@.map_values(|a: String| a@)).moves.len(),
            forall|i: int| 0 <= i < r.1@.len() ==> (#[trigger] r.1@[i])@ == position_scan(args@.map_values(|a: String| a@)).moves[i],
    {
        let ghost views = args@.map_values(|a: String| a@);
        let startpos = "startpos".to_owned();
        let fen_word = "fen".to_owned();
        let moves_word = "moves".to_owned();
        let mut in_moves = false;
        let mut in_fen = false;
        let mut fen = String::new();
        let mut moves: Vec<String> = Vec::new();
        let mut i: usize = 0;
        while i < args.len()
            invariant
                i <= args@.len(),
                views == args@.map_values(|a: String| a@),
                startpos@ == "startpos"@,
                fen_word@ == "fen"@,
                moves_word@ == "moves"@,
                ({
                    let st = position_scan(views.take(i as int));
                    &&& st.fen == fen@
                    &&& st.in_fen == in_fen
                    &&& st.in_moves == in_moves
                    &&& st.moves.len() == moves@.len()
                    &&& forall|k: int| 0 <= k < moves@.len() ==> (#[trigger] moves@[k])@ == st.moves[k]
                }),
            decreases args@.len() - i,
        {
            let arg = args[i].clone();
            proof {
                assert(views.take(i + 1).drop_last() =~= views.take(i as int));
                assert(views.take(i + 1).last() == arg@);
            }
            if arg == startpos {
                fen = START_FEN.to_owned();
            } else if arg == fen_word {
                in_fen = true;
                in_moves = false;
            } else if arg == moves_word {
                in_fen = false;
                in_moves = true;
            } else {
                if in_fen {
                    fen.append(arg.as_str());
                    fen.append(" ");
                }
                if in_moves {
                    moves.push(arg);
                }
            }
            i = i + 1;
        }
        proof {
            assert(views.take(args@.len() as int) =~= views);
        }
        (fen, moves)
    }

    /// The option name and value of a `setoption name <name> value <value>` command, or
    /// `None` where the arguments do not have that shape.
    pub fn set_option_arguments(args: &Vec<String>) -> (r: Option<(String, String)>)
        ensures
            r is Some <==> (args@.len() == 4 && args@[0]@ == "name"@ && args@[2]@ == "value"@),
            r matches Some(p) ==> p.0@ == args@[1]@ && p.1@ == args@[3]@,
    {
        if args.len() != 4 {
            return None;
        }
        let name_word = "name".to_owned();
        let value_word = "value".to_owned();
        if args[0] != name_word || args[2] != value_word {
            return None;
        }
        Some((args[1].clone(), args[3].clone()))
    }
}

} // verus!
