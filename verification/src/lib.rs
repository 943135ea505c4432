//! A verified model of the process and memory core of a small RISC-V64 kernel:
//! address spaces with demand paging, tasks, a FIFO scheduler and the trap and
//! system-call plane. Hardware and platform services are represented by plain
//! values, so every rule of the core is stated as a contract and proved.
//!
//! The memory side: `addr`, `flags`, `frame`, `page_table`, `file`,
//! `backend`, `area`, `memory_set` and `elf`. The task side: `context`,
//! `stack`, `fd`, `task`, `scheduler` and `loader`. The kernel as a whole:
//! `kernel`, `console`, `time`, `utils`, the system calls in `syscall`,
//! `sys_fs`, `sys_mem`, `sys_task` and `dispatch`, and the entry from traps
//! in `trap`. `ulib` is the user side of the system-call interface.

pub mod addr;
pub mod area;
pub mod backend;
pub mod console;
pub mod context;
pub mod dispatch;
pub mod elf;
pub mod fd;
pub mod file;
pub mod flags;
pub mod frame;
pub mod kernel;
pub mod loader;
pub mod memory_set;
pub mod page_table;
pub mod scheduler;
pub mod stack;
pub mod sys_fs;
pub mod sys_mem;
pub mod sys_task;
pub mod syscall;
pub mod task;
pub mod time;
pub mod trap;
pub mod ulib;
pub mod utils;
