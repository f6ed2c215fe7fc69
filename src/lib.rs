//! Reconciles a transit schedule against vehicle telemetry: cleans ping
//! streams, assigns vehicles to schedule groups, matches scheduled stop
//! events to pings, and scores the result against a ground-truth
//! correspondence list.

pub mod geo;
pub mod model;
pub mod cleaner;
pub mod fine;
pub mod coarse;
pub mod heuristic;
pub mod evaluator;
pub mod partition;

pub use geo::{calculate_distance, Coordinate};
pub use model::{
    is_delay_acceptable, is_time_compatible, Assignment, Bus, Edge, Line, ScheduleGroup,
    VehicleGroup,
};
pub use cleaner::{clean_telemetry, remove_duplicates_except_payment, remove_last_duplicates_in_busdata};
pub use fine::{find_nearest_coordinates, nearest_ping, LookupError, MatchedRecord};
pub use coarse::{assign_buses_to_lines, coarse_choice};
pub use heuristic::{calculate_optimal_bus_line, match_all_stops, HeuristicMatch};
pub use evaluator::{test_results, Concordance, EvalError, Record};
