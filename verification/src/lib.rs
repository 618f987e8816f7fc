pub mod attacks;
pub mod bits;
pub mod board_pack;
pub mod chess;
pub mod clock;
pub mod edge;
pub mod game_state;
pub mod hash_table;
pub mod networks;
pub mod node;
pub mod node_index;
pub mod options;
pub mod params_processor;
pub mod policy;
pub mod printer;
pub mod score;
pub mod search_helpers;
pub mod search_limits;
pub mod search_stats;
pub mod search_tree;
pub mod see;
pub mod tree;
pub mod tree_segment;
pub mod uci_processor;

pub use attacks::{Attacks, BishopAttacks, RookAttacks};
pub use board_pack::ChessBoardPacked;
pub use chess::{ChessBoard, Move, MoveFlag, Piece, Side};
pub use edge::{Edge, POLICY_ONE};
pub use game_state::GameState;
pub use hash_table::{HashTable, HashTableEntry};
pub use networks::{QuantizedAccumulator, QunatisedNetworkLayer, QA, QB};
pub use node::Node;
pub use node_index::NodeIndex;
pub use options::{CheckBool, SpinOptionInt};
pub use params_processor::{ParamsPlan, ParamsProcessor};
pub use policy::PolicyNetwork;
pub use printer::Printer;
pub use score::AtomicScore;
pub use search_helpers::SearchHelpers;
pub use search_limits::SearchLimits;
pub use search_stats::SearchStats;
pub use search_tree::SearchTree;
pub use see::SEE;
pub use tree::Tree;
pub use tree_segment::TreeSegment;
pub use uci_processor::{UciProcessor, START_FEN};
