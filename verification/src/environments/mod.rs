pub mod grid_world;
pub mod helpers;
pub mod line_world;
pub mod monty_hall_lvl1;
pub mod pierre_feuille_ciseaux;
