//! Order-book and market-microstructure state for a trading strategy.
//!
//! Every price, size and derived quantity is an IEEE-754 binary64 value; the
//! library holds such values by their bit patterns and orders them with the
//! comparison rules of the standard (see [`ieee`]). What is kept here is the
//! structure: the price levels of a level-2 book and the time windows of the
//! flow calculators, with their invariants.

pub mod book;
pub mod ieee;
pub mod jump;
pub mod ladder;
pub mod liquidity;
pub mod ofi;
pub mod side;
pub mod volatility;
pub mod window;

pub use book::BookLevels;
pub use jump::JumpWindow;
pub use ladder::Ladder;
pub use liquidity::{Trade, TradeWindow};
pub use ofi::{OfiWindow, OrderEvent};
pub use side::Side;
pub use volatility::ReturnWindow;
pub use window::TimeWindow;
