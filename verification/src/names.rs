use convert_case::{Case, Casing};
use vstd::prelude::*;

verus! {

/// What PascalCase-to-snake_case conversion returns for a name.
pub uninterp spec fn spec_pascal_to_snake(name: Seq<char>) -> Seq<char>;

/// Converts a PascalCase name to snake_case.
///
/// Calls `convert_case`'s `from_case(Case::Pascal).to_case(Case::Snake)`.
/// The contract only names the result: the crate's word-boundary rules are
/// not restated here, but the result depends on the name alone.
#[verifier::external_body]
fn pascal_to_snake(name: &str) -> (r: String)
    ensures
        r@ == spec_pascal_to_snake(name@),
{
    name.from_case(Case::Pascal).to_case(Case::Snake)
}

/// The name with every `<` and `>` taken out.
pub open spec fn strip_brackets(name: Seq<char>) -> Seq<char> {
    name.filter(|c: char| c != '<' && c != '>')
}

/// Removes generic argument brackets, keeping the identifiers concatenated.
pub fn remove_brackets(name: &str) -> (r: String)
    ensures
        r@ == strip_brackets(name@),
{
    let n = name.unicode_len();
    let mut result = String::new();
    let mut i: usize = 0;
    while i < n
        invariant
            n == name@.len(),
            i <= n,
            result@ == strip_brackets(name@.take(i as int)),
        decreases n - i,
    {
        let c = name.get_char(i);
        proof {
            reveal(Seq::filter);
            assert(name@.take(i + 1).drop_last() =~= name@.take(i as int));
        }
        if c != '<' && c != '>' {
            let piece = name.substring_char(i, i + 1);
            proof {
                assert(piece@ =~= seq![c]);
            }
            result.append(piece);
        }
        i = i + 1;
    }
    proof {
        assert(name@.take(n as int) =~= name@);
    }
    result
}

/// Converts a (possibly generic) PascalCase type name to snake_case: the
/// generic brackets are removed first, keeping the identifiers concatenated.
pub fn to_snake(name: &String) -> (r: String)
    ensures
        r@ == spec_pascal_to_snake(strip_brackets(name@)),
{
    let stripped = remove_brackets(name.as_str());
    pascal_to_snake(stripped.as_str())
}

/// Whether two strings hold the same characters.
pub fn str_equal(a: &str, b: &str) -> (r: bool)
    ensures
        r == (a@ == b@),
{
    let a_owned = String::from_str(a);
    let b_owned = String::from_str(b);
    a_owned == b_owned
}

/// Whether a component name is allowed: the special query types are not.
pub fn is_allowed_component_name(name: &str) -> (r: bool)
    ensures
        r == !(name@ == "Entity"@ || name@ == "EntityAny"@ || name@ == "OneOf"@ || name@
            == "AnyOf"@ || name@ == "Option"@),
{
    let reserved: [&str; 5] = ["Entity", "EntityAny", "OneOf", "AnyOf", "Option"];
    let mut i: usize = 0;
    let mut allowed = true;
    while i < 5
        invariant
            i <= 5,
            reserved@ == seq!["Entity", "EntityAny", "OneOf", "AnyOf", "Option"],
            allowed == !(exists|j: int| 0 <= j < i && name@ == reserved@[j]@),
        decreases 5 - i,
    {
        if str_equal(name, reserved[i]) {
            allowed = false;
        }
        i = i + 1;
    }
    allowed
}

} // verus!
