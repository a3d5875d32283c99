//! The route finder: a search from the payee back to the payer over the
//! channel graph, path by path, and the choice of the cheapest set of paths
//! that carries the payment.

pub mod combination;
pub mod path_set;
pub mod payment_path;
pub mod route;
pub mod route_ser;
pub mod route_spec;
pub mod router;
pub mod routing_state;
pub mod search;
