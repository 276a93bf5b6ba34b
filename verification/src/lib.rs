//! Game logic of Jordquest: the tick ring buffers, the wire format of the
//! network packets, the connection table of the host and the handling of
//! each datagram, map generation on the tile grid, grid path finding for
//! enemies, camp planning, combat, health and scores, the minimap picture,
//! and the menu input fields.

pub mod buffers;
pub mod components;
pub mod wire;
pub mod packets;
pub mod map;
pub mod text;
mod rng;
pub mod noise;
pub mod camp;
pub mod menus;
pub mod net;
pub mod player;
pub mod combat;
pub mod minimap;
pub mod enemy;
mod heap;
