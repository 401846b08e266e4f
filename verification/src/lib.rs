pub mod coin;
pub mod collision;
pub mod context;
pub mod elapsed_time;
pub mod game;
pub mod geom;
pub mod input_ext;
pub mod player;
pub mod rules;
