//! The JSON form in which a receipt is hashed.
use crate::types::{ExpertId, ReceiptView};
use vstd::prelude::*;

verus! {

/// The bytes of ASCII text.
pub open spec fn ascii(text: Seq<char>) -> Seq<u8> {
    text.map_values(|c: char| c as u8)
}

/// A JSON number.
pub open spec fn number_json(n: nat) -> Seq<u8> {
    ascii(crate::text::decimal(n))
}

/// `items` one after another, with a comma between neighbours.
pub open spec fn comma_separated(items: Seq<Seq<u8>>) -> Seq<u8>
    decreases items.len(),
{
    if items.len() == 0 {
        Seq::empty()
    } else if items.len() == 1 {
        items[0]
    } else {
        items[0] + (seq![',' as u8] + comma_separated(items.drop_first()))
    }
}

/// A JSON array of `items`, without spaces.
pub open spec fn array_json(items: Seq<Seq<u8>>) -> Seq<u8> {
    seq!['[' as u8] + (comma_separated(items) + seq![']' as u8])
}

/// A JSON array of numbers, one for each byte.
pub open spec fn bytes_json(bytes: Seq<u8>) -> Seq<u8> {
    array_json(bytes.map_values(|b: u8| number_json(b as nat)))
}

/// A JSON array that holds the array of numbers of each identifier.
pub open spec fn expert_ids_json(ids: Seq<ExpertId>) -> Seq<u8> {
    array_json(ids.map_values(|id: ExpertId| bytes_json(id.0@)))
}

/// A receipt as a JSON object without spaces, its members in the order in
/// which the receipt declares them.
pub open spec fn receipt_json(receipt: ReceiptView) -> Seq<u8> {
    ascii("{\"request_id\":"@) + (bytes_json(receipt.request_id.0@) + (ascii(
        ",\"expert_ids\":"@,
    ) + (expert_ids_json(receipt.expert_ids) + (ascii(",\"token_count\":"@) + (number_json(
        receipt.token_count as nat,
    ) + (ascii(",\"timestamp\":"@) + (number_json(receipt.timestamp as nat) + (ascii(
        ",\"node_signature\":"@,
    ) + (bytes_json(receipt.node_signature.0@) + seq!['}' as u8])))))))))
}

spec fn is_digit_byte(b: u8) -> bool {
    48 <= b <= 57
}

/// The number that decimal digits stand for.
spec fn number_value(digits: Seq<u8>) -> nat
    decreases digits.len(),
{
    if digits.len() == 0 {
        0
    } else {
        10 * number_value(digits.drop_last()) + (digits.last() - 48) as nat
    }
}

proof fn lemma_number_json(n: nat)
    ensures
        number_json(n).len() > 0,
        forall|i: int| 0 <= i < number_json(n).len() ==> is_digit_byte(#[trigger] number_json(n)[i]),
        number_value(number_json(n)) == n,
    decreases n,
{
    let json = number_json(n);
    if n < 10 {
        assert(json.drop_last() =~= Seq::empty());
        assert(number_value(json.drop_last()) == 0);
        assert(json.last() == 48 + n);
    } else {
        lemma_number_json(n / 10);
        assert(json.drop_last() =~= number_json(n / 10));
        assert(json.last() == 48 + n % 10);
        assert forall|i: int| 0 <= i < json.len() implies is_digit_byte(#[trigger] json[i]) by {
            if i < json.len() - 1 {
                assert(json[i] == number_json(n / 10)[i]);
            }
        }
    }
}

/// Different numbers are written differently.
pub proof fn lemma_decimal_is_injective(a: nat, b: nat)
    requires
        a != b,
    ensures
        crate::text::decimal(a) != crate::text::decimal(b),
{
    lemma_number_json(a);
    lemma_number_json(b);
}

/// A number's text ends where a byte follows that is no digit.
proof fn lemma_number_prefix(a: nat, b: nat, x: Seq<u8>, y: Seq<u8>)
    requires
        number_json(a) + x == number_json(b) + y,
        x.len() > 0 && !is_digit_byte(x[0]),
        y.len() > 0 && !is_digit_byte(y[0]),
    ensures
        a == b,
        x == y,
{
    lemma_number_json(a);
    lemma_number_json(b);
    let s = number_json(a);
    let t = number_json(b);
    let whole = s + x;
    if s.len() < t.len() {
        assert(whole[s.len() as int] == x[0]);
        assert(whole[s.len() as int] == t[s.len() as int]);
    } else if t.len() < s.len() {
        assert(whole[t.len() as int] == s[t.len() as int]);
        assert(whole[t.len() as int] == y[0]);
    }
    assert(s =~= whole.take(s.len() as int));
    assert(t =~= whole.take(t.len() as int));
    assert(x =~= whole.skip(s.len() as int));
    assert(y =~= whole.skip(t.len() as int));
}

/// `rest` begins with what follows an element of an array.
spec fn after_element(rest: Seq<u8>) -> bool {
    rest.len() > 0 && (rest[0] == ',' as u8 || rest[0] == ']' as u8)
}

/// Where an element's text ends is plain from the text.
spec fn delimited<A>(encode: spec_fn(A) -> Seq<u8>) -> bool {
    &&& forall|a: A| #![trigger encode(a)] encode(a).len() > 0 && encode(a)[0] != ']' as u8
    &&& forall|a: A, b: A, x: Seq<u8>, y: Seq<u8>|
        #![trigger encode(a) + x, encode(b) + y]
        encode(a) + x == encode(b) + y && after_element(x) && after_element(y) ==> a == b && x == y
}

/// An element, and then what follows it in the text of an array.
proof fn lemma_first_element<A>(encode: spec_fn(A) -> Seq<u8>, items: Seq<A>, x: Seq<u8>) -> (rest:
    Seq<u8>)
    requires
        items.len() > 0,
    ensures
        comma_separated(items.map_values(encode)) + (seq![']' as u8] + x) == encode(items[0])
            + rest,
        after_element(rest),
        items.len() == 1 ==> rest == seq![']' as u8] + x,
        items.len() > 1 ==> rest == seq![',' as u8] + (comma_separated(
            items.drop_first().map_values(encode),
        ) + (seq![']' as u8] + x)),
{
    let encoded = items.map_values(encode);
    let end = seq![']' as u8] + x;
    if items.len() == 1 {
        end
    } else {
        assert(encoded.drop_first() =~= items.drop_first().map_values(encode));
        let rest = seq![',' as u8] + (comma_separated(encoded.drop_first()) + end);
        assert(comma_separated(encoded) + end =~= encode(items[0]) + rest);
        rest
    }
}

proof fn lemma_elements_prefix<A>(
    encode: spec_fn(A) -> Seq<u8>,
    s: Seq<A>,
    t: Seq<A>,
    x: Seq<u8>,
    y: Seq<u8>,
)
    requires
        delimited(encode),
        comma_separated(s.map_values(encode)) + (seq![']' as u8] + x) == comma_separated(
            t.map_values(encode),
        ) + (seq![']' as u8] + y),
    ensures
        s == t,
        x == y,
    decreases s.len(),
{
    let close = seq![']' as u8];
    let s_whole = comma_separated(s.map_values(encode)) + (close + x);
    let t_whole = comma_separated(t.map_values(encode)) + (close + y);
    if s.len() == 0 && t.len() == 0 {
        assert(x =~= s_whole.skip(1));
        assert(y =~= t_whole.skip(1));
        assert(s =~= t);
    } else if s.len() == 0 {
        let rest = lemma_first_element(encode, t, y);
        assert(s_whole[0] == ']' as u8);
        assert(t_whole[0] == encode(t[0])[0]);
    } else if t.len() == 0 {
        let rest = lemma_first_element(encode, s, x);
        assert(t_whole[0] == ']' as u8);
        assert(s_whole[0] == encode(s[0])[0]);
    } else {
        let s_rest = lemma_first_element(encode, s, x);
        let t_rest = lemma_first_element(encode, t, y);
        assert(encode(s[0]) + s_rest == encode(t[0]) + t_rest);
        assert(s[0] == t[0] && s_rest == t_rest);
        if s.len() == 1 {
            assert(s_rest[0] == ']' as u8);
            assert(t.len() == 1);
            assert(x =~= s_rest.skip(1));
            assert(y =~= t_rest.skip(1));
        } else {
            assert(s_rest[0] == ',' as u8);
            assert(t.len() > 1);
            let s_tail = comma_separated(s.drop_first().map_values(encode)) + (close + x);
            let t_tail = comma_separated(t.drop_first().map_values(encode)) + (close + y);
            assert(s_tail =~= s_rest.skip(1));
            assert(t_tail =~= t_rest.skip(1));
            lemma_elements_prefix(encode, s.drop_first(), t.drop_first(), x, y);
            assert(s =~= seq![s[0]] + s.drop_first());
            assert(t =~= seq![t[0]] + t.drop_first());
        }
        assert(s =~= t);
    }
}

/// Where an array's text ends is plain from the text.
proof fn lemma_array_prefix<A>(
    encode: spec_fn(A) -> Seq<u8>,
    s: Seq<A>,
    t: Seq<A>,
    x: Seq<u8>,
    y: Seq<u8>,
)
    requires
        delimited(encode),
        array_json(s.map_values(encode)) + x == array_json(t.map_values(encode)) + y,
    ensures
        s == t,
        x == y,
{
    let s_whole = array_json(s.map_values(encode)) + x;
    let t_whole = array_json(t.map_values(encode)) + y;
    let close = seq![']' as u8];
    assert(s_whole.skip(1) =~= comma_separated(s.map_values(encode)) + (close + x));
    assert(t_whole.skip(1) =~= comma_separated(t.map_values(encode)) + (close + y));
    lemma_elements_prefix(encode, s, t, x, y);
}

proof fn lemma_bytes_prefix(s: Seq<u8>, t: Seq<u8>, x: Seq<u8>, y: Seq<u8>)
    requires
        bytes_json(s) + x == bytes_json(t) + y,
    ensures
        s == t,
        x == y,
{
    let encode = |b: u8| number_json(b as nat);
    assert forall|a: u8| #![trigger encode(a)] encode(a).len() > 0 && encode(a)[0] != ']' as u8 by {
        lemma_number_json(a as nat);
        assert(is_digit_byte(number_json(a as nat)[0]));
    }
    assert forall|a: u8, b: u8, x: Seq<u8>, y: Seq<u8>|
        #![trigger encode(a) + x, encode(b) + y]
        encode(a) + x == encode(b) + y && after_element(x) && after_element(y) implies a == b && x
        == y by {
        lemma_number_prefix(a as nat, b as nat, x, y);
    }
    assert(s.map_values(encode) =~= s.map_values(|b: u8| number_json(b as nat)));
    assert(t.map_values(encode) =~= t.map_values(|b: u8| number_json(b as nat)));
    lemma_array_prefix(encode, s, t, x, y);
}

proof fn lemma_expert_ids_prefix(s: Seq<ExpertId>, t: Seq<ExpertId>, x: Seq<u8>, y: Seq<u8>)
    requires
        expert_ids_json(s) + x == expert_ids_json(t) + y,
    ensures
        s == t,
        x == y,
{
    let encode = |id: ExpertId| bytes_json(id.0@);
    assert forall|a: ExpertId, b: ExpertId, x: Seq<u8>, y: Seq<u8>|
        #![trigger encode(a) + x, encode(b) + y]
        encode(a) + x == encode(b) + y && after_element(x) && after_element(y) implies a == b && x
        == y by {
        lemma_bytes_prefix(a.0@, b.0@, x, y);
        crate::types::lemma_same_view(a.0, b.0);
    }
    assert(s.map_values(encode) =~= s.map_values(|id: ExpertId| bytes_json(id.0@)));
    assert(t.map_values(encode) =~= t.map_values(|id: ExpertId| bytes_json(id.0@)));
    lemma_array_prefix(encode, s, t, x, y);
}

/// What follows a common prefix is common too.
proof fn lemma_same_rest(prefix: Seq<u8>, x: Seq<u8>, y: Seq<u8>)
    requires
        prefix + x == prefix + y,
    ensures
        x == y,
{
    assert(x =~= (prefix + x).skip(prefix.len() as int));
    assert(y =~= (prefix + y).skip(prefix.len() as int));
}

/// The JSON form loses nothing: receipts with the same JSON form are the same.
pub proof fn law_receipt_json_is_injective(a: ReceiptView, b: ReceiptView)
    requires
        receipt_json(a) == receipt_json(b),
    ensures
        a == b,
{
    let k1 = ascii("{\"request_id\":"@);
    let k2 = ascii(",\"expert_ids\":"@);
    let k3 = ascii(",\"token_count\":"@);
    let k4 = ascii(",\"timestamp\":"@);
    let k5 = ascii(",\"node_signature\":"@);
    reveal_strlit(",\"timestamp\":");
    reveal_strlit(",\"node_signature\":");
    let close = seq!['}' as u8];
    let a5 = bytes_json(a.node_signature.0@) + close;
    let b5 = bytes_json(b.node_signature.0@) + close;
    let a4 = number_json(a.timestamp as nat) + (k5 + a5);
    let b4 = number_json(b.timestamp as nat) + (k5 + b5);
    let a3 = number_json(a.token_count as nat) + (k4 + a4);
    let b3 = number_json(b.token_count as nat) + (k4 + b4);
    let a2 = expert_ids_json(a.expert_ids) + (k3 + a3);
    let b2 = expert_ids_json(b.expert_ids) + (k3 + b3);
    let a1 = bytes_json(a.request_id.0@) + (k2 + a2);
    let b1 = bytes_json(b.request_id.0@) + (k2 + b2);
    assert(k1 + a1 == k1 + b1);
    lemma_same_rest(k1, a1, b1);
    lemma_bytes_prefix(a.request_id.0@, b.request_id.0@, k2 + a2, k2 + b2);
    lemma_same_rest(k2, a2, b2);
    lemma_expert_ids_prefix(a.expert_ids, b.expert_ids, k3 + a3, k3 + b3);
    lemma_same_rest(k3, a3, b3);
    lemma_number_prefix(a.token_count as nat, b.token_count as nat, k4 + a4, k4 + b4);
    lemma_same_rest(k4, a4, b4);
    lemma_number_prefix(a.timestamp as nat, b.timestamp as nat, k5 + a5, k5 + b5);
    lemma_same_rest(k5, a5, b5);
    lemma_bytes_prefix(a.node_signature.0@, b.node_signature.0@, close, close);
    crate::types::lemma_same_view(a.request_id.0, b.request_id.0);
    crate::types::lemma_same_view(a.node_signature.0, b.node_signature.0);
    assert(a =~= b);
}

/// ASCII text has one byte for each character, its code.
pub proof fn law_ascii_keeps_codes(text: Seq<char>, i: int)
    requires
        0 <= i < text.len(),
        0 <= (text[i] as int) < 128,
    ensures
        ascii(text).len() == text.len(),
        ascii(text)[i] as int == text[i] as int,
{
}

/// A number is written as its decimal text.
pub proof fn law_number_json_is_decimal(n: nat, i: int)
    requires
        0 <= i < crate::text::decimal(n).len(),
    ensures
        number_json(n).len() == crate::text::decimal(n).len(),
        number_json(n)[i] as int == crate::text::decimal(n)[i] as int,
{
    crate::text::law_decimal_reads_back(n);
    assert('0' <= crate::text::decimal(n)[i] <= '9');
}

proof fn lemma_comma_separated_push(items: Seq<Seq<u8>>, item: Seq<u8>)
    requires
        items.len() > 0,
    ensures
        comma_separated(items.push(item)) == comma_separated(items) + (seq![',' as u8] + item),
    decreases items.len(),
{
    let longer = items.push(item);
    assert(longer.drop_first() =~= items.drop_first().push(item));
    if items.len() == 1 {
        assert(longer.drop_first() =~= seq![item]);
        assert(comma_separated(seq![item]) == item);
    } else {
        lemma_comma_separated_push(items.drop_first(), item);
        assert(comma_separated(longer) =~= comma_separated(items) + (seq![',' as u8] + item));
    }
}

/// An array is closed by a bracket; an element appended to it comes before that
/// bracket, and after a comma where it is not the first.
pub proof fn law_array_json_appends(items: Seq<Seq<u8>>, item: Seq<u8>)
    ensures
        array_json(Seq::empty()) == seq!['[' as u8, ']' as u8],
        array_json(seq![item]) == seq!['[' as u8] + item + seq![']' as u8],
        items.len() > 0 ==> array_json(items.push(item)) == array_json(items).drop_last()
            + seq![',' as u8] + item + seq![']' as u8],
{
    assert(array_json(Seq::empty()) =~= seq!['[' as u8, ']' as u8]);
    assert(array_json(seq![item]) =~= seq!['[' as u8] + item + seq![']' as u8]);
    if items.len() > 0 {
        lemma_comma_separated_push(items, item);
        assert(array_json(items.push(item)) =~= array_json(items).drop_last() + seq![',' as u8]
            + item + seq![']' as u8]);
    }
}

/// Bytes are written as an array of numbers, an identifier list as an array of
/// such arrays.
pub proof fn law_lists_are_arrays(
    bytes: Seq<u8>,
    numbers: Seq<Seq<u8>>,
    ids: Seq<ExpertId>,
    arrays: Seq<Seq<u8>>,
)
    requires
        numbers.len() == bytes.len(),
        forall|i: int| 0 <= i < bytes.len() ==> #[trigger] numbers[i] == number_json(bytes[i] as nat),
        arrays.len() == ids.len(),
        forall|i: int| 0 <= i < ids.len() ==> #[trigger] arrays[i] == bytes_json(ids[i].0@),
    ensures
        bytes_json(bytes) == array_json(numbers),
        expert_ids_json(ids) == array_json(arrays),
{
    assert(bytes.map_values(|b: u8| number_json(b as nat)) =~= numbers);
    assert(ids.map_values(|id: ExpertId| bytes_json(id.0@)) =~= arrays);
}

/// The members of a receipt's JSON object, in order.
pub proof fn law_receipt_json_members(receipt: ReceiptView)
    ensures
        receipt_json(receipt) == ascii("{\"request_id\":"@) + bytes_json(receipt.request_id.0@)
            + ascii(",\"expert_ids\":"@) + expert_ids_json(receipt.expert_ids) + ascii(
            ",\"token_count\":"@,
        ) + number_json(receipt.token_count as nat) + ascii(",\"timestamp\":"@) + number_json(
            receipt.timestamp as nat,
        ) + ascii(",\"node_signature\":"@) + bytes_json(receipt.node_signature.0@)
            + seq!['}' as u8],
{
}

} // verus!
