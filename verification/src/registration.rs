//! Functions that are registered as cases of a generated runner.

use vstd::prelude::*;

verus! {

/// The error of the `syn` crate.
#[verifier::external_type_specification]
#[verifier::external_body]
pub struct ExSynError(syn::Error);

/// What a function is registered as.
#[derive(Clone, Copy, Debug, PartialEq, Eq, Structural)]
pub enum CaseKind {
    Test,
    Bench,
    /// A case that runs only when ignored cases are asked for.
    Ignored,
}

/// Why an item cannot be registered.
pub enum RegistrationError {
    /// The item is not a function.
    NotAFunction(syn::Error),
}

/// Whether parsing an item can come to this outcome: the name of the function that it defines,
/// or `None` where it is refused. Two lexers can read one item, so an item may have more than
/// one outcome.
pub uninterp spec fn can_parse_to(item: Seq<char>, outcome: Option<Seq<char>>) -> bool;

/// `syn::parse_str` of an `ItemFn`, and the identifier in its signature. The result is one that
/// this item can have. It is not determined by the item: which lexer reads it, and with it what
/// is a function, depends on whether the process is a procedural macro.
#[verifier::external_body]
fn parse_function_name(item: &str) -> (result: Result<String, syn::Error>)
    ensures
        match result {
            Ok(name) => can_parse_to(item@, Some(name@)),
            Err(_) => can_parse_to(item@, None),
        },
{
    let function = syn::parse_str::<syn::ItemFn>(item)?;
    Ok(function.sig.ident.to_string())
}

/// The type that a case is collected as.
pub open spec fn case_type(kind: CaseKind) -> Seq<char> {
    match kind {
        CaseKind::Test => "TestCase"@,
        CaseKind::Bench => "BenchCase"@,
        CaseKind::Ignored => "IgnoredCase"@,
    }
}

/// The field that holds the function; a note that a case is ignored has none.
pub open spec fn run_field(kind: CaseKind, name: Seq<char>) -> Seq<char> {
    match kind {
        CaseKind::Ignored => Seq::empty(),
        _ => "        run: "@ + name + ",\n"@,
    }
}

/// What stands before the name of a case in its submission.
pub open spec fn opening(kind: CaseKind) -> Seq<char> {
    "::inventory::submit! {\n    ::dinghy_apple_runner_support::"@ + case_type(kind)
        + " {\n        name: "@
}

/// The name of a case: the module's path and the function's name.
pub open spec fn case_name(name: Seq<char>) -> Seq<char> {
    "::core::concat!(::core::module_path!(), \"::\", ::core::stringify!("@ + name + "))"@
}

/// The submission of a case.
pub open spec fn submission(kind: CaseKind, name: Seq<char>) -> Seq<char> {
    opening(kind) + case_name(name) + ",\n"@ + run_field(kind, name) + "    }\n}\n"@
}

/// The items that register a function: its own item, and behind it the submission.
pub open spec fn registration(kind: CaseKind, item: Seq<char>, name: Seq<char>) -> Seq<char> {
    item + "\n\n"@ + submission(kind, name)
}

/// Writes the submission of the function with this name.
pub fn submit(kind: CaseKind, name: &str) -> (items: String)
    ensures
        items@ == submission(kind, name@),
{
    let collected = match kind {
        CaseKind::Test => "TestCase",
        CaseKind::Bench => "BenchCase",
        CaseKind::Ignored => "IgnoredCase",
    };
    let run = match kind {
        CaseKind::Ignored => String::new(),
        _ => "        run: ".to_string().concat(name).concat(",\n"),
    };
    assert(run@ =~= run_field(kind, name@));
    let opening = "::inventory::submit! {\n    ::dinghy_apple_runner_support::".to_string().concat(
        collected,
    ).concat(" {\n        name: ");
    let case_name = "::core::concat!(::core::module_path!(), \"::\", ::core::stringify!(".to_string().concat(
    name).concat("))");
    opening.concat(case_name.as_str()).concat(",\n").concat(run.as_str()).concat("    }\n}\n")
}

/// Writes the items that register the function with this name.
pub fn register(kind: CaseKind, item: &str, name: &str) -> (items: String)
    ensures
        items@ == registration(kind, item@, name@),
{
    item.to_string().concat("\n\n").concat(submit(kind, name).as_str())
}

/// The submission of an item, from what parsing it gave: the name of a function, or an error.
pub fn submit_parsed(kind: CaseKind, parsed: Result<String, syn::Error>) -> (result: Result<
    String,
    RegistrationError,
>)
    ensures
        match parsed {
            Ok(name) => result matches Ok(items) && items@ == submission(kind, name@),
            Err(error) => result == Err::<String, RegistrationError>(
                RegistrationError::NotAFunction(error),
            ),
        },
{
    match parsed {
        Ok(name) => Ok(submit(kind, name.as_str())),
        Err(error) => Err(RegistrationError::NotAFunction(error)),
    }
}

/// Registers an item, from what parsing it gave: the name of a function, or an error.
pub fn register_parsed(
    kind: CaseKind,
    item: &str,
    parsed: Result<String, syn::Error>,
) -> (result: Result<String, RegistrationError>)
    ensures
        match parsed {
            Ok(name) => result matches Ok(items) && items@ == registration(kind, item@, name@),
            Err(error) => result == Err::<String, RegistrationError>(
                RegistrationError::NotAFunction(error),
            ),
        },
{
    match parsed {
        Ok(name) => Ok(register(kind, item, name.as_str())),
        Err(error) => Err(RegistrationError::NotAFunction(error)),
    }
}

/// What registering an item gives: the items that register it under a name that parsing it can
/// give, or an error where parsing can refuse it.
pub open spec fn registers(
    kind: CaseKind,
    item: Seq<char>,
    result: Result<String, RegistrationError>,
) -> bool {
    match result {
        Ok(items) => exists|name: Seq<char>|
            can_parse_to(item, Some(name)) && items@ == #[trigger] registration(kind, item, name),
        Err(_) => can_parse_to(item, None),
    }
}

fn register_item(kind: CaseKind, item: &str) -> (result: Result<String, RegistrationError>)
    ensures
        registers(kind, item@, result),
{
    register_parsed(kind, item, parse_function_name(item))
}

/// Registers a function as a test. The argument of the attribute has no meaning.
pub fn test_case(_attr: &str, item: &str) -> (result: Result<String, RegistrationError>)
    ensures
        registers(CaseKind::Test, item@, result),
{
    register_item(CaseKind::Test, item)
}

/// Registers a function as a benchmark. The argument of the attribute has no meaning.
pub fn bench_case(_attr: &str, item: &str) -> (result: Result<String, RegistrationError>)
    ensures
        registers(CaseKind::Bench, item@, result),
{
    register_item(CaseKind::Bench, item)
}

/// Notes that a function is an ignored case. The argument of the attribute has no meaning.
pub fn ignored(_attr: &str, item: &str) -> (result: Result<String, RegistrationError>)
    ensures
        registers(CaseKind::Ignored, item@, result),
{
    register_item(CaseKind::Ignored, item)
}

/// An item that can only be parsed as the function of one name is registered under that name,
/// whatever it is registered as.
pub proof fn function_is_registered_under_its_name(
    kind: CaseKind,
    item: Seq<char>,
    name: Seq<char>,
    result: Result<String, RegistrationError>,
)
    ensures
        registers(kind, item, result) && (forall|outcome: Option<Seq<char>>| #[trigger]
            can_parse_to(item, outcome) ==> outcome == Some(name)) ==> (result matches Ok(items)
            && items@ == registration(kind, item, name)),
{
}

/// The submissions of one function hold the same name, whatever it is registered as.
pub proof fn kinds_share_the_name(first: CaseKind, second: CaseKind, name: Seq<char>)
    ensures
        ({
            let held = case_name(name) + ",\n"@;
            let count = held.len() as int;
            &&& submission(first, name).skip(opening(first).len() as int).take(count) == held
            &&& submission(second, name).skip(opening(second).len() as int).take(count) == held
        }),
{
    lemma_held_name(first, name);
    lemma_held_name(second, name);
}

proof fn lemma_held_name(kind: CaseKind, name: Seq<char>)
    ensures
        submission(kind, name).skip(opening(kind).len() as int).take(
            (case_name(name) + ",\n"@).len() as int,
        ) == case_name(name) + ",\n"@,
{
    let held = case_name(name) + ",\n"@;
    assert(submission(kind, name).skip(opening(kind).len() as int).take(held.len() as int)
        =~= held);
}

/// Two functions of one module have different names as cases.
pub proof fn names_tell_functions_apart(a: Seq<char>, b: Seq<char>)
    requires
        case_name(a) == case_name(b),
    ensures
        a == b,
{
    let front = "::core::concat!(::core::module_path!(), \"::\", ::core::stringify!("@;
    assert(case_name(a).len() == case_name(b).len());
    assert(a =~= case_name(a).skip(front.len() as int).take(a.len() as int));
    assert(b =~= case_name(b).skip(front.len() as int).take(b.len() as int));
}

/// The function itself stays as it is, at the beginning of what it is registered with.
pub proof fn registration_keeps_the_function(kind: CaseKind, item: Seq<char>, name: Seq<char>)
    ensures
        registration(kind, item, name).len() > item.len(),
        registration(kind, item, name).take(item.len() as int) == item,
{
    reveal_strlit("\n\n");
    assert(registration(kind, item, name).take(item.len() as int) =~= item);
}

} // verus!
