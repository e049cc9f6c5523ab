//! Which fields of a Lance schema have an Arrow type.

use lance_core::datatypes::{Field, Schema};
use vstd::prelude::*;

use crate::text::{has_prefix, same_text};

verus! {

/// A field of a Lance schema. What it holds is spoken of through the name below.
#[verifier::external_type_specification]
#[verifier::external_body]
pub struct ExField(lance_core::datatypes::Field);

/// The type of a field as Lance stores it.
pub struct TypeTree {
    /// The text of the logical type.
    pub logical_type: Seq<char>,
    /// Whether that text names an Arrow type by itself.
    pub converts: bool,
    /// The types of the fields below.
    pub children: Seq<TypeTree>,
}

/// The type of a field.
pub uninterp spec fn field_tree(field: Field) -> TypeTree;

/// The types of the top-level fields of a schema, in order.
pub uninterp spec fn schema_trees(schema: Schema) -> Seq<TypeTree>;

/// A top-level field of a Lance `Schema`.
#[verifier::external_body]
fn top_field(schema: &Schema, index: usize) -> (r: &Field)
    requires
        index < schema_trees(*schema).len(),
    ensures
        field_tree(*r) == schema_trees(*schema)[index as int],
{
    &schema.fields[index]
}

/// The number of fields directly below a Lance `Field`.
#[verifier::external_body]
fn child_count(field: &Field) -> (r: usize)
    ensures
        r == field_tree(*field).children.len(),
{
    field.children.len()
}

/// A field directly below a Lance `Field`.
#[verifier::external_body]
fn child_at(field: &Field, index: usize) -> (r: &Field)
    requires
        index < field_tree(*field).children.len(),
    ensures
        field_tree(*r) == field_tree(*field).children[index as int],
{
    &field.children[index]
}

/// The text of a Lance `Field`'s logical type (`Display` for `LogicalType`).
#[verifier::external_body]
fn logical_type_text(field: &Field) -> (r: String)
    ensures
        r@ == field_tree(*field).logical_type,
{
    field.logical_type.to_string()
}

/// Whether Lance gives an Arrow `DataType` for a Lance `Field`'s logical type
/// alone (`DataType::try_from`).
#[verifier::external_body]
fn converts_alone(field: &Field) -> (r: bool)
    ensures
        r == field_tree(*field).converts,
{
    arrow_schema::DataType::try_from(&field.logical_type).is_ok()
}

/// The number that decimal digits spell.
pub open spec fn spelled(digits: Seq<char>) -> nat
    decreases digits.len(),
{
    if digits.len() == 0 {
        0
    } else {
        10 * spelled(digits.drop_last()) + (digits.last() as nat - '0' as nat) as nat
    }
}

/// Whether a text is made of digits, and spells a number up to `limit`.
pub open spec fn spells_at_most(digits: Seq<char>, limit: nat) -> bool {
    &&& digits.len() > 0
    &&& forall|i: int| 0 <= i < digits.len() ==> '0' <= #[trigger] digits[i] <= '9'
    &&& spelled(digits) <= limit
}

/// Whether a text spells a signed 32-bit number: a sign or none, then digits.
pub open spec fn is_i32_text(s: Seq<char>) -> bool {
    if s.len() > 0 && s[0] == '-' {
        spells_at_most(s.drop_first(), 0x8000_0000)
    } else if s.len() > 0 && s[0] == '+' {
        spells_at_most(s.drop_first(), 0x7fff_ffff)
    } else {
        spells_at_most(s, 0x7fff_ffff)
    }
}

/// Whether a text spells a signed 32-bit number.
fn parses_as_i32(s: &str) -> (r: bool)
    ensures
        r == is_i32_text(s@),
{
    let total: usize = s.unicode_len();
    let negative = total > 0 && s.get_char(0) == '-';
    let signed = negative || total > 0 && s.get_char(0) == '+';
    let start: usize = if signed {
        1
    } else {
        0
    };
    let limit: u64 = if negative {
        0x8000_0000
    } else {
        0x7fff_ffff
    };
    let ghost digits = if signed {
        s@.drop_first()
    } else {
        s@
    };
    let mut value: u64 = 0;
    let mut i: usize = start;
    assert(digits.take(0) =~= Seq::empty());
    while i < total
        invariant
            start <= i <= total,
            start <= 1,
            total == s@.len(),
            digits == s@.skip(start as int),
            limit <= 0x8000_0000,
            is_i32_text(s@) == spells_at_most(digits, limit as nat),
            value <= limit,
            value == spelled(digits.take(i - start)),
            forall|k: int| 0 <= k < i - start ==> '0' <= #[trigger] digits[k] <= '9',
        decreases total - i,
    {
        let c = s.get_char(i);
        assert(digits[i - start] == c);
        let digit: u64 = match digit_value(c) {
            Some(digit) => digit,
            None => {
                return false;
            },
        };
        value = 10 * value + digit;
        assert(digits.take(i - start + 1).drop_last() =~= digits.take(i - start));
        if value > limit {
            proof {
                lemma_spelled_grows(digits, i - start + 1);
            }
            return false;
        }
        i = i + 1;
    }
    assert(digits.take(i - start) =~= digits);
    total > start
}

/// More digits never spell a smaller number.
proof fn lemma_spelled_grows(digits: Seq<char>, some: int)
    requires
        0 <= some <= digits.len(),
    ensures
        spelled(digits.take(some)) <= spelled(digits),
    decreases digits.len(),
{
    if some == digits.len() {
        assert(digits.take(some) =~= digits);
    } else {
        lemma_spelled_grows(digits.drop_last(), some);
        assert(digits.drop_last().take(some) =~= digits.take(some));
    }
}

fn digit_value(c: char) -> (r: Option<u64>)
    ensures
        match r {
            Some(digit) => '0' <= c <= '9' && digit == c as nat - '0' as nat,
            None => !('0' <= c <= '9'),
        },
{
    if '0' <= c && c <= '9' {
        Some((c as u32 - '0' as u32) as u64)
    } else {
        None
    }
}

/// The part of a text behind its last colon; the whole text without one.
pub open spec fn after_last_colon(s: Seq<char>) -> Seq<char>
    decreases s.len(),
{
    if s.len() == 0 || s.last() == ':' {
        Seq::empty()
    } else {
        after_last_colon(s.drop_last()).push(s.last())
    }
}

fn last_part(s: &str) -> (r: String)
    ensures
        r@ == after_last_colon(s@),
{
    let end: usize = s.unicode_len();
    let mut start: usize = end;
    assert(s@.take(end as int) =~= s@);
    assert(after_last_colon(s@) =~= after_last_colon(s@) + s@.subrange(end as int, end as int));
    while start > 0 && s.get_char(start - 1) != ':'
        invariant
            start <= end,
            end == s@.len(),
            after_last_colon(s@) == after_last_colon(s@.take(start as int)) + s@.subrange(
                start as int,
                end as int,
            ),
        decreases start,
    {
        assert(s@.take(start as int).drop_last() =~= s@.take(start - 1));
        assert(after_last_colon(s@.take(start - 1)).push(s@[start - 1]) + s@.subrange(
            start as int,
            end as int,
        ) =~= after_last_colon(s@.take(start - 1)) + s@.subrange(start - 1, end as int));
        start = start - 1;
    }
    assert(after_last_colon(s@) =~= s@.subrange(start as int, end as int));
    String::from_str(s.substring_char(start, end))
}

/// Whether a logical type is made of the type of the first field below.
pub open spec fn is_nesting(logical_type: Seq<char>) -> bool {
    ||| logical_type == "list"@
    ||| logical_type == "list.struct"@
    ||| logical_type == "large_list"@
    ||| logical_type == "large_list.struct"@
    ||| logical_type == "map"@
}

/// Whether a field has an Arrow type.
pub open spec fn has_arrow_type(tree: TypeTree) -> bool
    decreases tree,
{
    if is_nesting(tree.logical_type) {
        tree.children.len() > 0 && has_arrow_type(tree.children[0])
    } else if "fixed_size_list:struct:"@.is_prefix_of(tree.logical_type) {
        &&& is_i32_text(after_last_colon(tree.logical_type))
        &&& tree.children.len() > 0
        &&& has_arrow_type(tree.children[0])
    } else if tree.logical_type == "struct"@ {
        forall|i: int| 0 <= i < tree.children.len() ==> has_arrow_type(#[trigger] tree.children[i])
    } else {
        tree.converts
    }
}

fn is_nesting_text(logical_type: &str) -> (r: bool)
    ensures
        r == is_nesting(logical_type@),
{
    same_text(logical_type, "list") || same_text(logical_type, "list.struct") || same_text(
        logical_type,
        "large_list",
    ) || same_text(logical_type, "large_list.struct") || same_text(logical_type, "map")
}

fn is_typed(field: &Field) -> (r: bool)
    ensures
        r == has_arrow_type(field_tree(*field)),
    decreases field_tree(*field),
{
    let ghost tree = field_tree(*field);
    let text = logical_type_text(field);
    let logical_type = text.as_str();
    let total: usize = child_count(field);
    if is_nesting_text(logical_type) {
        total > 0 && is_typed(child_at(field, 0))
    } else if has_prefix(logical_type, "fixed_size_list:struct:") {
        parses_as_i32(last_part(logical_type).as_str()) && total > 0 && is_typed(child_at(field, 0))
    } else if same_text(logical_type, "struct") {
        let mut i: usize = 0;
        while i < total
            invariant
                i <= total,
                tree == field_tree(*field),
                total == tree.children.len(),
                tree.logical_type == "struct"@,
                !is_nesting(tree.logical_type),
                !"fixed_size_list:struct:"@.is_prefix_of(tree.logical_type),
                forall|k: int| 0 <= k < i ==> has_arrow_type(#[trigger] tree.children[k]),
            decreases total - i,
        {
            if !is_typed(child_at(field, i)) {
                assert(!has_arrow_type(tree.children[i as int]));
                return false;
            }
            i = i + 1;
        }
        true
    } else {
        converts_alone(field)
    }
}

/// Whether a top-level field of a schema has an Arrow type.
pub(crate) fn field_is_typed(schema: &Schema, index: usize) -> (r: bool)
    requires
        index < schema_trees(*schema).len(),
    ensures
        r == has_arrow_type(schema_trees(*schema)[index as int]),
{
    is_typed(top_field(schema, index))
}

/// Digits spell a number from the front: no digits spell nothing, and each digit
/// more counts itself and ten times what came before.
pub proof fn digits_are_read_from_the_front(digits: Seq<char>, digit: char)
    requires
        '0' <= digit <= '9',
    ensures
        spelled(Seq::<char>::empty()) == 0,
        spelled(digits.push(digit)) == 10 * spelled(digits) + (digit as int - '0' as int),
{
    assert(digits.push(digit).drop_last() =~= digits);
}

/// A text spells a signed 32-bit number exactly where it is a sign or none, then
/// digits and nothing else, at least one, and the number is in range.
pub proof fn a_signed_number_is_a_sign_and_digits(s: Seq<char>)
    ensures
        s.len() > 0 && s[0] == '-' ==> (is_i32_text(s) <==> s.len() > 1 && (forall|i: int|
            0 <= i < s.drop_first().len() ==> '0' <= #[trigger] s.drop_first()[i] <= '9')
            && spelled(s.drop_first()) <= 2147483648),
        s.len() > 0 && s[0] == '+' ==> (is_i32_text(s) <==> s.len() > 1 && (forall|i: int|
            0 <= i < s.drop_first().len() ==> '0' <= #[trigger] s.drop_first()[i] <= '9')
            && spelled(s.drop_first()) <= 2147483647),
        !(s.len() > 0 && (s[0] == '-' || s[0] == '+')) ==> (is_i32_text(s) <==> s.len() > 0 && (
        forall|i: int| 0 <= i < s.len() ==> '0' <= #[trigger] s[i] <= '9') && spelled(s)
            <= 2147483647),
{
}

/// The last part of a text has no colon, and what is in front of it, if anything,
/// ends with one.
pub proof fn the_last_part_follows_the_last_colon(s: Seq<char>)
    ensures
        after_last_colon(s).len() <= s.len(),
        after_last_colon(s) == s.skip(s.len() - after_last_colon(s).len()),
        forall|i: int|
            0 <= i < after_last_colon(s).len() ==> #[trigger] after_last_colon(s)[i] != ':',
        after_last_colon(s).len() < s.len() ==> s[s.len() - after_last_colon(s).len() - 1] == ':',
    decreases s.len(),
{
    let last = after_last_colon(s);
    if s.len() == 0 || s.last() == ':' {
        assert(last =~= s.skip(s.len() as int));
    } else {
        let rest = s.drop_last();
        the_last_part_follows_the_last_colon(rest);
        assert(last =~= s.skip(s.len() - last.len()));
        assert forall|i: int| 0 <= i < last.len() implies #[trigger] last[i] != ':' by {
            if i < last.len() - 1 {
                assert(after_last_colon(rest)[i] == last[i]);
            }
        }
    }
}

/// A field has an Arrow type where its logical type names one by itself; a list
/// or a map where its first field below has one, a list of a fixed number of
/// structs where besides the number can be read, and a struct where all the
/// fields below have one.
pub proof fn a_type_rests_on_the_types_below(tree: TypeTree)
    ensures
        tree.logical_type == "list"@ || tree.logical_type == "list.struct"@ || tree.logical_type
            == "large_list"@ || tree.logical_type == "large_list.struct"@ || tree.logical_type
            == "map"@ ==> (has_arrow_type(tree) <==> tree.children.len() > 0 && has_arrow_type(
            tree.children[0],
        )),
        tree.logical_type == "struct"@ ==> (has_arrow_type(tree) <==> forall|i: int|
            0 <= i < tree.children.len() ==> has_arrow_type(#[trigger] tree.children[i])),
        "fixed_size_list:struct:"@.is_prefix_of(tree.logical_type) ==> (has_arrow_type(tree)
            <==> is_i32_text(after_last_colon(tree.logical_type)) && tree.children.len() > 0
            && has_arrow_type(tree.children[0])),
        tree.logical_type != "list"@ && tree.logical_type != "list.struct"@ && tree.logical_type
            != "large_list"@ && tree.logical_type != "large_list.struct"@ && tree.logical_type
            != "map"@ && tree.logical_type != "struct"@ && !"fixed_size_list:struct:"@.is_prefix_of(
            tree.logical_type,
        ) ==> has_arrow_type(tree) == tree.converts,
{
    reveal_with_fuel(has_arrow_type, 2);
    reveal_strlit("list");
    reveal_strlit("list.struct");
    reveal_strlit("large_list");
    reveal_strlit("large_list.struct");
    reveal_strlit("map");
    reveal_strlit("struct");
    reveal_strlit("fixed_size_list:struct:");
    assert("fixed_size_list:struct:"@.len() == 23);
    assert("struct"@.len() == 6);
    assert("list.struct"@.len() == 11 && "large_list"@.len() == 10 && "large_list.struct"@.len() == 17
        && "list"@.len() == 4 && "map"@.len() == 3);
    assert("struct"@[0] == 's' && "list"@[0] == 'l');
}

} // verus!
