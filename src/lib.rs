pub mod components;
pub mod midi;
pub mod nmat;
pub mod patch;
pub mod ports;
pub mod soundscape;
pub mod text;
pub mod topo;
pub mod voice;
