[package]
name = "pwm"
version = "0.1.0"
edition = "2021"
publish = false

[dependencies]
aead = { version = "=0.5.2", features = ["getrandom"] }
aes-gcm = "=0.10.3"
aes-gcm-siv = "=0.11.1"
argon2 = "=0.5.3"
pbkdf2 = "=0.12.2"
sha2 = { version = "=0.10.9", features = ["asm"] }
scrypt = "=0.12.0"
chacha20poly1305 = "=0.10.1"
passwords = "=3.1.19"
zeroize = "=1.9.1"
csv = "=1.4.0"
clap = { version = "=4.6.7", features = ["derive"] }
rpassword = "=7.5.4"
arboard = { version = "=3.7.0", default-features = false }

[dev-dependencies]
bincode = "=1.3.3"
