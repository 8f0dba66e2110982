//! User-level services: the shell, the game engine and the system call gate.
pub mod game;
pub mod shell;
pub mod syscall;
