[package]
name = "membase"
version = "0.1.0"
edition = "2021"
publish = false

[dependencies]
winapi = { version = "0.3", features = ["consoleapi", "handleapi", "libloaderapi", "memoryapi", "minwindef", "processthreadsapi", "psapi", "winnt", "winuser", "wincon"] }
serde = { version = "1", features = ["derive"] }
serde_json = "1"
