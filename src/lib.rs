//! Client-side model of a domain-ranking web service: the records it returns,
//! the rules that decode its polymorphic configuration values, the request
//! addresses it answers on, and the parser of its downloadable ranked lists.
pub mod model;
pub mod decimal;
pub mod listfile;
pub mod endpoint;
