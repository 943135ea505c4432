[package]
name = "proc_core"
version = "0.1.0"
edition = "2021"
publish = false

[dependencies]
memory_addr = "*"
xmas-elf = "*"
riscv = "*"
sbi-rt = "*"
