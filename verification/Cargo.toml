[package]
name = "easytier"
version = "2.6.4"
edition = "2021"
publish = false

[dependencies]
anyhow = "=1.0.104"
async-trait = "=0.1.92"
boringtun-easytier = "=0.6.1"
bytes = "=1.12.1"
cidr = "=0.2.3"
dashmap = "=6.2.1"
futures = "=0.3.34"
hickory-proto = "=0.25.2"
hickory-resolver = { version = "=0.25.2", features = ["system-config", "tokio"] }
network-interface = "=2.0.5"
once_cell = "=1.21.4"
parking_lot = "=0.12.5"
rand = "=0.8.8"
tokio = { version = "=1.54.1", features = ["full"] }
tokio-util = { version = "=0.7.20", features = ["rt"] }
tracing = "=0.1.44"
url = "=2.5.8"
uuid = { version = "=1.29.0", features = ["v4"] }
winapi = { version = "=0.3.9", features = ["impl-default", "netioapi", "winerror", "ws2def", "ws2ipdef"] }
windows = { version = "=0.60.0", features = ["Win32_Foundation", "Win32_NetworkManagement_WindowsFirewall", "Win32_Networking_WinSock", "Win32_System_Com", "Win32_System_IO", "Win32_System_Ole", "Win32_System_Variant"] }
