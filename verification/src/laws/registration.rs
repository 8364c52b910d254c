//! Laws on registered cases.

use vstd::prelude::*;

use crate::registration::{
    can_parse_to, registers, registration, registration_keeps_the_function, submission, CaseKind,
    RegistrationError,
};

verus! {

/// A test and a benchmark are submitted with the name in their module and the function that runs
/// them; that a case is ignored is submitted with the name alone.
pub proof fn cases_are_submitted_with_their_function(name: Seq<char>)
    ensures
        ({
            let named = " {\n        name: ::core::concat!(::core::module_path!(), \"::\", ::core::stringify!("@
                + name + ")),\n"@;
            let run = "        run: "@ + name + ",\n"@;
            let front = "::inventory::submit! {\n    ::dinghy_apple_runner_support::"@;
            let back = "    }\n}\n"@;
            &&& submission(CaseKind::Test, name) == front + "TestCase"@ + named + run + back
            &&& submission(CaseKind::Bench, name) == front + "BenchCase"@ + named + run + back
            &&& submission(CaseKind::Ignored, name) == front + "IgnoredCase"@ + named + back
        }),
{
    let opening = " {\n        name: "@;
    let middle = "::core::concat!(::core::module_path!(), \"::\", ::core::stringify!("@;
    let whole = " {\n        name: ::core::concat!(::core::module_path!(), \"::\", ::core::stringify!("@;
    reveal_strlit(" {\n        name: ");
    reveal_strlit("::core::concat!(::core::module_path!(), \"::\", ::core::stringify!(");
    reveal_strlit(
        " {\n        name: ::core::concat!(::core::module_path!(), \"::\", ::core::stringify!(",
    );
    reveal_strlit("))");
    reveal_strlit(",\n");
    reveal_strlit(")),\n");
    assert(opening.len() + middle.len() == whole.len());
    assert(whole =~= opening + middle);
    assert(")),\n"@ =~= "))"@ + ",\n"@);
    let named = whole + name + ")),\n"@;
    let run = "        run: "@ + name + ",\n"@;
    let front = "::inventory::submit! {\n    ::dinghy_apple_runner_support::"@;
    let back = "    }\n}\n"@;
    assert(submission(CaseKind::Test, name) =~= front + "TestCase"@ + named + run + back);
    assert(submission(CaseKind::Bench, name) =~= front + "BenchCase"@ + named + run + back);
    assert(submission(CaseKind::Ignored, name) =~= front + "IgnoredCase"@ + named + back);
}

/// What an item is registered with stands behind it, with an empty line between them.
pub proof fn submission_stands_behind_the_item(kind: CaseKind, item: Seq<char>, name: Seq<char>)
    ensures
        registration(kind, item, name) == item + "\n\n"@ + submission(kind, name),
{
}

/// An item that can only be refused is not registered, and one that cannot be refused is.
pub proof fn refused_items_are_not_registered(
    kind: CaseKind,
    item: Seq<char>,
    result: Result<String, RegistrationError>,
)
    ensures
        registers(kind, item, result) && (forall|outcome: Option<Seq<char>>| #[trigger]
            can_parse_to(item, outcome) ==> outcome is None) ==> result is Err,
        registers(kind, item, result) && !can_parse_to(item, None) ==> (result matches Ok(items)
            && items@.len() > item.len() && items@.take(item.len() as int) == item),
{
    if registers(kind, item, result) {
        if let Ok(items) = result {
            let name = choose|name: Seq<char>|
                can_parse_to(item, Some(name)) && items@ == #[trigger] registration(
                    kind,
                    item,
                    name,
                );
            registration_keeps_the_function(kind, item, name);
        }
    }
}

} // verus!
