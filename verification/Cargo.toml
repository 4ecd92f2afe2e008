[package]
name = "potatodb"
version = "0.1.0"
edition = "2021"
publish = false

[dependencies]
arrow = { version = "=57.3.2", features = ["prettyprint", "csv", "json"] }
arrow-cast = { version = "=57.3.2", features = ["prettyprint"] }
async-recursion = "=1.2.0"
async-trait = "=0.1.92"
chrono = "=0.4.45"
datafusion = { version = "=51.0.0", default-features = false, features = ["parquet", "sql", "nested_expressions", "datetime_expressions", "string_expressions", "regex_expressions", "unicode_expressions", "crypto_expressions", "encoding_expressions", "recursive_protection"] }
futures = "=0.3.34"
object_store = { version = "=0.12.5", default-features = false, features = ["fs", "aws"] }
parquet = { version = "=57.3.2", features = ["arrow"] }
serde = { version = "=1.0.229", features = ["derive"] }
serde_json = { version = "=1.0.154", features = ["unbounded_depth"] }
sqlparser = { version = "=0.59.0", features = ["visitor", "serde"] }
tokio = { version = "=1.54.1", features = ["rt-multi-thread", "macros"] }
url = "=2.5.8"
