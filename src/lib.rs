pub mod keyboard;
pub mod keymap;
pub mod buffer;
pub mod textobject;
pub mod overlay;
pub mod window;
pub mod editor;
