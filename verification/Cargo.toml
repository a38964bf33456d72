[package]
name = "axcache"
version = "0.1.0"
edition = "2021"
publish = false

[dependencies]
axalloc = "=0.3.0-preview.3"
axerrno = "=0.2.2"
axfs-ng-vfs = "=0.1.1"
axhal = { version = "=0.2.2-preview.6", features = ["paging"] }
axio = "0.1"
axpoll = "=0.1.2"
axsync = "=0.2.2-preview.1"
bitflags = "2"
enum_dispatch = "0.3"
intrusive-collections = "0.9"
kspin = "0.1"
lazy_static = "1"
lru = "=0.16.4"
memory_addr = "=0.4.1"
memory_set = "0.4"
page_table_multiarch = "0.6"
spin = "0.10"
