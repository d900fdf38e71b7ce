//! Verified presentation rules for the field renderer: menu layout
//! arithmetic and text wrapping, the audit of presentation requests, portrait
//! composition, the audio mixer's command rules, spoken lines and cooked
//! audio assets, offline capture and render sequences, bone channel presence,
//! dialogue box placement, effect texture layers and the exploration of event
//! choices.

pub mod menu_layout;
pub mod audit;
pub mod portrait;
pub mod mixer;
pub mod voice;
pub mod audio_assets;
pub mod showcase;
pub mod sequence;
pub mod channels;
pub mod screen;
pub mod effects;
pub mod explorer;
