//! meatshell: the decisions of an SSH terminal client, stated and proved.
//!
//! The terminal: [`vt`] is the emulator as this library sees it, [`line`] what a row of cells
//! shows, [`grid`] how characters and columns relate, [`feed`] the byte stream on its way in,
//! [`term`] a terminal as a mathematical value and [`buffer`] the terminal itself; [`keys`] is
//! the keyboard and [`palette`] the colours.
//!
//! The interface: [`session`], [`import`] and [`dialog`] are saved sessions, [`groups`] and
//! [`quick`] the lists made of them, [`events`], [`ui`], [`apply`], [`panel`] and [`tabs`] what a
//! session does to its tab, [`sidebar`] the status panel, and [`window`], [`fonts`] and
//! [`version`] the rest of the window. [`text`], [`order`] and [`addr`] are the vocabulary that
//! the others are stated in.

pub mod addr;
pub mod apply;
pub mod buffer;
pub mod dialog;
pub mod events;
pub mod feed;
pub mod fonts;
pub mod grid;
pub mod groups;
pub mod import;
pub mod keys;
pub mod line;
pub mod order;
pub mod palette;
pub mod panel;
pub mod quick;
pub mod session;
pub mod sidebar;
pub mod tabs;
pub mod term;
pub mod text;
pub mod ui;
pub mod version;
pub mod vt;
pub mod window;
