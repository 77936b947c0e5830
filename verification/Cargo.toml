[package]
name = "crossnet"
version = "0.1.0"
edition = "2021"
publish = false

[dependencies]
subnetwork = "=0.6.15"
regex = "=1.13.1"
thiserror = "=2.0.21"
futures = "=0.3.34"
libc = "=0.2.191"
rtnetlink = "=0.23.0"
tokio = { version = "=1.54.1", features = ["rt", "rt-multi-thread"] }
windows = { version = "*", default-features = false, features = ["Win32_Foundation", "Win32_NetworkManagement_IpHelper", "Win32_NetworkManagement_Ndis", "Win32_Networking_WinSock"] }
