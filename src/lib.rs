//! A software rasterizer's verified core: the depth-tested frame buffer,
//! textures and their loading, the OBJ mesh grammar and the triangles that a
//! face table names, the terminal and browser presentation logic, and the
//! decisions of the event-driven frame driver.

pub mod depth;
pub mod driver;
pub mod keys;
pub mod loader;
pub mod mesh;
pub mod obj;
pub mod pixel;
pub mod screen;
pub mod terminal;
pub mod texture;
pub mod web;

pub use depth::Depth;
pub use driver::{apply_action, begin_frame, Action, Effect};
pub use keys::Key;
pub use loader::{load_image, AssetError};
pub use obj::{load_obj, Indice, ObjModel};
pub use pixel::Pixel;
pub use screen::Screen;
pub use terminal::CliInterface;
pub use texture::{Image, Texture, Textures};
pub use web::{get_display_size, WasmInterface};
pub mod obj_text;
