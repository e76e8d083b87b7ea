pub mod cable;
