//! A complete, compiling tool-capsule skeleton.

use crate::text::chars_of;
use vstd::prelude::*;
use vstd::string::*;

verus! {

/// The build target and the flag without which it does not link.
pub const CARGO_CONFIG: &'static str = "[build]\n\
target = \"wasm32-unknown-unknown\"\n\
\n\
[target.wasm32-unknown-unknown]\n\
rustflags = [\"--cfg=getrandom_backend=\\\"custom\\\"\"]\n\
";

/// The pinned toolchain.
pub const TOOLCHAIN: &'static str = "[toolchain]\n\
channel = \"1.94.0\"\n\
targets = [\"wasm32-unknown-unknown\"]\n\
components = [\"rustfmt\", \"clippy\"]\n\
";

/// `Cargo.toml` up to the name.
pub const CARGO_HEAD: &'static str = "[package]\n\
name = \"";

/// `Cargo.toml` behind the name.
pub const CARGO_TAIL: &'static str = "\"\n\
version = \"0.1.0\"\n\
edition = \"2024\"\n\
license = \"MIT OR Apache-2.0\"\n\
publish = false\n\
\n\
[lib]\n\
crate-type = [\"cdylib\"]\n\
\n\
[dependencies]\n\
astrid-sdk = { version = \"0.7\", features = [\"derive\"] }\n\
serde = { version = \"1.0\", features = [\"derive\"] }\n\
serde_json = \"1.0\"\n\
\n\
[profile.release]\n\
opt-level = \"z\"\n\
lto = true\n\
codegen-units = 1\n\
strip = true\n\
panic = \"abort\"\n\
";

/// `Capsule.toml` up to the name.
pub const CAPSULE_HEAD: &'static str = "[package]\n\
name = \"";

/// `Capsule.toml` between the name and the component's id.
pub const CAPSULE_COMPONENT: &'static str = "\"\n\
version = \"0.1.0\"\n\
description = \"A new Unicity AOS tool capsule\"\n\
authors = [\"Your Name <you@example.com>\"]\n\
astrid-version = \">=0.7.0\"\n\
\n\
[[component]]\n\
id = \"";

/// `Capsule.toml` between the id and the file.
pub const CAPSULE_FILE: &'static str = "\"\n\
file = \"";

/// `Capsule.toml` behind the file.
pub const CAPSULE_TAIL: &'static str = "\"\n\
type = \"executable\"\n\
\n\
[capabilities]\n\
fs_read = [\"home://\"]\n\
\n\
[publish]\n\
\"tool.v1.execute.*.result\" = { wit = \"@unicity-astrid/wit/types/tool-call-result\" }\n\
\"tool.v1.response.describe.*\" = { wit = \"@unicity-astrid/wit/tool/describe-response\" }\n\
\n\
[subscribe]\n\
\"tool.v1.execute.hello\" = { wit = \"@unicity-astrid/wit/types/tool-call\", handler = \"tool_execute_hello\" }\n\
\"tool.v1.request.describe\" = { wit = \"@unicity-astrid/wit/tool/describe-request\", handler = \"tool_describe\" }\n\
";

/// The source of the one tool.
pub const LIB_SOURCE: &'static str = "#![deny(unsafe_code)]\n\
#![deny(clippy::all)]\n\
\n\
//! A new Unicity AOS tool capsule. Replace `hello` with your own tools.\n\
\n\
use astrid_sdk::prelude::*;\n\
use astrid_sdk::schemars;\n\
use serde::Deserialize;\n\
\n\
#[derive(Default)]\n\
pub struct Capsule;\n\
\n\
#[derive(Debug, Default, Deserialize, schemars::JsonSchema)]\n\
pub struct HelloArgs {\n\
/// Who to greet (shown to the LLM as the parameter description).\n\
pub name: String,\n\
}\n\
\n\
#[capsule]\n\
impl Capsule {\n\
/// Greet someone. This doc-comment becomes the tool description the LLM sees.\n\
#[astrid::tool(\"hello\")]\n\
pub fn hello(&self, args: HelloArgs) -> Result<String, SysError> {\n\
Ok(format!(\"Hello, {}!\", args.name))\n\
}\n\
}\n\
";

/// A name with underscores in place of hyphens.
pub open spec fn underscored(name: Seq<char>) -> Seq<char> {
    name.map_values(
        |c: char|
            if c == '-' {
                '_'
            } else {
                c
            },
    )
}

pub open spec fn wasm_name(name: Seq<char>) -> Seq<char> {
    underscored(name) + ".wasm"@
}

pub open spec fn cargo_toml_of(name: Seq<char>) -> Seq<char> {
    CARGO_HEAD@ + name + CARGO_TAIL@
}

pub open spec fn capsule_toml_of(name: Seq<char>) -> Seq<char> {
    CAPSULE_HEAD@ + name + CAPSULE_COMPONENT@ + name + CAPSULE_FILE@ + wasm_name(name)
        + CAPSULE_TAIL@
}

/// Path and content of each file of a tool capsule.
pub open spec fn skeleton(name: Seq<char>) -> Seq<(Seq<char>, Seq<char>)> {
    seq![
        (".cargo/config.toml"@, CARGO_CONFIG@),
        ("rust-toolchain.toml"@, TOOLCHAIN@),
        ("Cargo.toml"@, cargo_toml_of(name)),
        ("Capsule.toml"@, capsule_toml_of(name)),
        ("src/lib.rs"@, LIB_SOURCE@),
    ]
}

pub open spec fn file_views(files: Seq<(&'static str, String)>) -> Seq<(Seq<char>, Seq<char>)> {
    Seq::new(files.len(), |i: int| (files[i].0@, files[i].1@))
}

fn wasm_file(name: &str) -> (r: String)
    ensures
        r@ == wasm_name(name@),
{
    let chars = chars_of(name);
    let mut out = String::new();
    let mut i: usize = 0;
    while i < chars.len()
        invariant
            i <= chars@.len(),
            chars@ == name@,
            out@ == underscored(name@).subrange(0, i as int),
        decreases chars@.len() - i,
    {
        let c: char = if chars[i] == '-' {
            '_'
        } else {
            chars[i]
        };
        out.push(c);
        i = i + 1;
        assert(out@ =~= underscored(name@).subrange(0, i as int));
    }
    assert(out@ =~= underscored(name@));
    out.append(".wasm");
    out
}

fn cargo_toml(name: &str) -> (r: String)
    ensures
        r@ == cargo_toml_of(name@),
{
    let mut out: String = CARGO_HEAD.to_owned();
    out.append(name);
    out.append(CARGO_TAIL);
    out
}

fn capsule_toml(name: &str) -> (r: String)
    ensures
        r@ == capsule_toml_of(name@),
{
    let wasm = wasm_file(name);
    let mut out: String = CAPSULE_HEAD.to_owned();
    out.append(name);
    out.append(CAPSULE_COMPONENT);
    out.append(name);
    out.append(CAPSULE_FILE);
    out.append(wasm.as_str());
    out.append(CAPSULE_TAIL);
    out
}

/// The files of a tool capsule with this name.
pub fn tool_skeleton(name: &str) -> (r: Vec<(&'static str, String)>)
    ensures
        file_views(r@) == skeleton(name@),
{
    let mut files: Vec<(&'static str, String)> = Vec::new();
    files.push((".cargo/config.toml", CARGO_CONFIG.to_owned()));
    files.push(("rust-toolchain.toml", TOOLCHAIN.to_owned()));
    files.push(("Cargo.toml", cargo_toml(name)));
    files.push(("Capsule.toml", capsule_toml(name)));
    files.push(("src/lib.rs", LIB_SOURCE.to_owned()));
    assert(file_views(files@) =~= skeleton(name@));
    files
}

} // verus!
