//! The scaffold around an SNL program that is handed to the host compiler.
use vstd::prelude::*;
use vstd::string::*;

verus! {

/// The helper that the emitted program reads its input with: it reads one
/// line, trims it and parses it to the type asked for, and ends the
/// process with code 1 if that fails.
pub open spec fn read_helper() -> Seq<char> {
    r#"
fn read<T>() -> T 
where
    T: std::str::FromStr,
    T::Err: std::fmt::Debug,
{
    let mut buf = String::new();
    std::io::stdin().read_line(&mut buf).unwrap();
    let res = match buf.trim().parse() {
        Ok(res) => res,
        Err(e) => {
            println!("{:?}: {:?}", "unmatch type", e);
            std::process::exit(1);
        }
    };
    res
}"#@
}

/// The host file for `snl`: the read helper, and a `main` whose body is
/// one invocation of the `snl!` macro around `snl`.
pub open spec fn ir_file(snl: Seq<char>) -> Seq<char> {
    read_helper() + "\n"@ + "fn main() {\n"@ + "snlc_parse::snl!{\n"@ + snl + "\n}"@ + "\n}"@
}

/// The host file for the source text `snl_str`.
pub fn gen_ir_file(snl_str: String) -> (res: String)
    ensures
        res@ == ir_file(snl_str@),
{
    let prefix = r#"
fn read<T>() -> T 
where
    T: std::str::FromStr,
    T::Err: std::fmt::Debug,
{
    let mut buf = String::new();
    std::io::stdin().read_line(&mut buf).unwrap();
    let res = match buf.trim().parse() {
        Ok(res) => res,
        Err(e) => {
            println!("{:?}: {:?}", "unmatch type", e);
            std::process::exit(1);
        }
    };
    res
}"#;
    let mut ir_file = String::from_str(prefix);
    ir_file.append("\n");
    ir_file.append("fn main() {\n");
    ir_file.append("snlc_parse::snl!{\n");
    ir_file.append(snl_str.as_str());
    ir_file.append("\n}");
    ir_file.append("\n}");
    ir_file
}

} // verus!
