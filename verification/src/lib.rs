pub mod console;
pub mod editor;
pub mod fs;
pub mod fs_laws;
pub mod gpu;
pub mod gpu_cmd;
pub mod keyboard;
pub mod pages;
pub mod paging;
pub mod shell;
pub mod text;
pub mod trap;
pub mod virtio;
