[package]
name = "midi_player"
version = "0.1.0"
edition = "2021"
publish = false

[dependencies]
rimd = "*"
anyhow = "1"
ctrlc = "3"
winapi = { version = "0.3", features = ["avrt", "basetsd", "minwindef", "mmeapi", "mmsystem", "ntdef", "synchapi", "winbase"] }
