//! Well-known positions as FEN records.

use vstd::prelude::*;

verus! {

pub const EMPTY_BOARD_FEN: &'static str = "8/8/8/8/8/8/8/8 w - - 0 1";

pub const STARTING_BOARD_FEN: &'static str = "rnbqkbnr/pppppppp/8/8/8/8/PPPPPPPP/RNBQKBNR w KQkq - 0 1";

pub const SCOTCH_GAME_FEN: &'static str = "r1bqkbnr/pppp1ppp/2n5/4p3/3PP3/5N2/PPP2PPP/RNBQKB1R b KQkq d3 0 3";

pub const EPAULETTE_MATE_FEN: &'static str = "5rkr/8/8/8/8/8/8/1Q4K1 w - - 0 1";

pub const BACKRANK_MATE_FEN: &'static str = "6k1/5ppp/8/8/8/8/8/1rk5 w - - 0 1";

pub const LADDER_MATE_FEN: &'static str = "6k1/R7/2R5/8/8/8/8/8 w - - 0 1";

pub const CASTLE_MATE_FEN: &'static str = "8/8/8/8/8/8/R7/R3K1k1 w Q - 0 1";

pub const PILLSBURY_MATE_FEN: &'static str = "5rk1/5p1p/5p1B/8/8/8/8/K6R w - - 0 1";

} // verus!
