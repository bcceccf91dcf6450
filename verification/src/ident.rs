use rand::Rng;
use vstd::prelude::*;
use vstd::string::*;

verus! {

/// The number of letters of a component identifier.
pub const ID_LENGTH: usize = 10;

/// `c` is one of the letters `A` to `Z`.
pub open spec fn is_uppercase_letter(c: char) -> bool {
    'A' <= c <= 'Z'
}

/// `s` is made of uppercase letters only.
pub open spec fn is_uppercase_text(s: Seq<char>) -> bool {
    forall|i: int| 0 <= i < s.len() ==> is_uppercase_letter(#[trigger] s[i])
}

/// Calls `rand::thread_rng().gen_range(0..bound)`: a number drawn uniformly
/// below `bound`. The contract claims only the range of the result; the
/// outside function panics on an empty range, which `requires` leaves out.
#[verifier::external_body]
fn random_below(bound: usize) -> (r: usize)
    requires
        bound > 0,
    ensures
        r < bound,
{
    rand::thread_rng().gen_range(0..bound)
}

/// The uppercase letter number `d`, counting `A` as 0.
pub open spec fn letter(d: int) -> char {
    ('A' as int + d) as char
}

/// The text whose letters have the given numbers, in order.
pub open spec fn letters_text(numbers: Seq<usize>) -> Seq<char> {
    numbers.map_values(|d: usize| letter(d as int))
}

/// Writes the text whose letters have the given numbers, counting `A` as 0.
pub fn text_of_letters(numbers: &Vec<usize>) -> (text: String)
    requires
        forall|i: int| 0 <= i < numbers.len() ==> numbers[i] < 26,
    ensures
        text@ == letters_text(numbers@),
{
    let charset = "ABCDEFGHIJKLMNOPQRSTUVWXYZ";
    proof {
        reveal_strlit("ABCDEFGHIJKLMNOPQRSTUVWXYZ");
    }
    assert(charset@.len() == 26);
    assert(forall|d: int| 0 <= d < 26 ==> #[trigger] charset@[d] == letter(d));
    assert(charset.is_ascii());
    let len = numbers.len();
    let mut text = String::new();
    let mut i: usize = 0;
    while i < len
        invariant
            i <= len,
            len == numbers.len(),
            forall|j: int| 0 <= j < numbers.len() ==> numbers[j] < 26,
            text@ == letters_text(numbers@.take(i as int)),
            charset@.len() == 26,
            forall|d: int| 0 <= d < 26 ==> #[trigger] charset@[d] == letter(d),
            charset.is_ascii(),
        decreases len - i,
    {
        let at = numbers[i];
        let one_char = charset.substring_ascii(at, at + 1);
        let ghost before = text@;
        text.append(one_char);
        proof {
            assert(one_char@ =~= seq![letter(at as int)]);
            assert(numbers@.take(i + 1) =~= numbers@.take(i as int).push(at));
            assert(text@ =~= letters_text(numbers@.take(i + 1)));
        }
        i += 1;
    }
    assert(numbers@.take(len as int) =~= numbers@);
    text
}

/// A random text of `len` uppercase letters: each letter is drawn on its own,
/// uniformly from `A` to `Z`.
pub fn get_random_id(len: usize) -> (id: String)
    ensures
        id@.len() == len,
        is_uppercase_text(id@),
{
    let mut numbers: Vec<usize> = Vec::new();
    let mut i: usize = 0;
    while i < len
        invariant
            i <= len,
            numbers.len() == i,
            forall|j: int| 0 <= j < numbers.len() ==> numbers[j] < 26,
        decreases len - i,
    {
        numbers.push(random_below(26));
        i += 1;
    }
    text_of_letters(&numbers)
}

/// The number of distinct component identifiers: 26 to the power of 10.
pub const ID_SPACE: u64 = 141_167_095_653_376;

/// `s` has the shape of a component identifier: ten uppercase letters.
pub open spec fn is_component_id(s: Seq<char>) -> bool {
    s.len() == ID_LENGTH && is_uppercase_text(s)
}

/// The number `n` written with `len` letters as digits of base 26, the
/// lowest digit first.
pub open spec fn number_text(n: nat, len: nat) -> Seq<char>
    decreases len,
{
    if len == 0 {
        Seq::empty()
    } else {
        seq![letter((n % 26) as int)] + number_text(n / 26, (len - 1) as nat)
    }
}

/// 26 to the power of `len`.
pub open spec fn pow26(len: nat) -> nat
    decreases len,
{
    if len == 0 {
        1
    } else {
        26 * pow26((len - 1) as nat)
    }
}

/// A number written with `len` letters is a text of `len` uppercase letters.
pub proof fn lemma_number_text_shape(n: nat, len: nat)
    ensures
        number_text(n, len).len() == len,
        is_uppercase_text(number_text(n, len)),
    decreases len,
{
    if len > 0 {
        lemma_number_text_shape(n / 26, (len - 1) as nat);
    }
}

/// Two numbers below 26 to the power of `len` that are written alike with
/// `len` letters are the same number.
pub proof fn lemma_number_text_injective(a: nat, b: nat, len: nat)
    requires
        a < pow26(len),
        b < pow26(len),
        number_text(a, len) == number_text(b, len),
    ensures
        a == b,
    decreases len,
{
    if len > 0 {
        let rest = (len - 1) as nat;
        let ta = number_text(a, len);
        let tb = number_text(b, len);
        lemma_number_text_shape(a / 26, rest);
        lemma_number_text_shape(b / 26, rest);
        assert(ta[0] == letter((a % 26) as int));
        assert(tb[0] == letter((b % 26) as int));
        assert(a % 26 == b % 26);
        assert(ta.subrange(1, len as int) =~= number_text(a / 26, rest));
        assert(tb.subrange(1, len as int) =~= number_text(b / 26, rest));
        lemma_number_text_injective(a / 26, b / 26, rest);
    }
}

/// Among the numbers up to the count of the identifiers in use, one is
/// written as an identifier that is not in use.
pub proof fn lemma_some_number_is_free(taken: Seq<Seq<char>>)
    requires
        taken.len() < ID_SPACE,
    ensures
        exists|k: nat| k <= taken.len() && !taken.contains(#[trigger] number_text(k, ID_LENGTH as nat)),
{
    let n = taken.len();
    let candidates = Seq::new(n + 1, |k: int| number_text(k as nat, ID_LENGTH as nat));
    if forall|k: nat| k <= n ==> taken.contains(#[trigger] number_text(k, ID_LENGTH as nat)) {
        assert(pow26(10) == ID_SPACE) by {
            reveal_with_fuel(pow26, 11);
        }
        assert forall|i: int, j: int|
            0 <= i < candidates.len() && 0 <= j < candidates.len() && i != j implies candidates[i]
            != candidates[j] by {
            if candidates[i] == candidates[j] {
                lemma_number_text_injective(i as nat, j as nat, ID_LENGTH as nat);
            }
        }
        candidates.unique_seq_to_set();
        taken.lemma_cardinality_of_set();
        assert forall|c: Seq<char>| candidates.to_set().contains(c) implies taken.to_set().contains(c) by {
            let k = choose|k: int| 0 <= k < candidates.len() && candidates[k] == c;
            assert(taken.contains(number_text(k as nat, ID_LENGTH as nat)));
        }
        vstd::seq_lib::seq_to_set_is_finite(taken);
        vstd::set_lib::lemma_len_subset(candidates.to_set(), taken.to_set());
        assert(false);
    }
}

/// `k` is the first number that is written as an identifier not in use.
pub open spec fn is_first_free_number(taken: Seq<Seq<char>>, k: nat) -> bool {
    &&& !taken.contains(number_text(k, ID_LENGTH as nat))
    &&& forall|j: nat| j < k ==> taken.contains(#[trigger] number_text(j, ID_LENGTH as nat))
}

/// The first number that is written as an identifier not in use.
pub open spec fn first_free_number(taken: Seq<Seq<char>>) -> nat {
    choose|k: nat| is_first_free_number(taken, k)
}

/// The first free number is the only free number with no free number below.
pub proof fn lemma_first_free_number_is(taken: Seq<Seq<char>>, k: nat)
    requires
        is_first_free_number(taken, k),
    ensures
        first_free_number(taken) == k,
{
    let j = first_free_number(taken);
    assert(is_first_free_number(taken, j));
    if j < k {
        assert(taken.contains(number_text(j, ID_LENGTH as nat)));
    }
    if k < j {
        assert(taken.contains(number_text(k, ID_LENGTH as nat)));
    }
}

/// The identifier that stands for the number `n`: `n` written with ten
/// letters as digits of base 26, the lowest digit first.
pub fn numbered_id(n: u64) -> (id: String)
    ensures
        id@ == number_text(n as nat, ID_LENGTH as nat),
        is_component_id(id@),
{
    let charset = "ABCDEFGHIJKLMNOPQRSTUVWXYZ";
    proof {
        reveal_strlit("ABCDEFGHIJKLMNOPQRSTUVWXYZ");
        lemma_number_text_shape(n as nat, ID_LENGTH as nat);
    }
    assert(charset@.len() == 26);
    assert(forall|d: int| 0 <= d < 26 ==> #[trigger] charset@[d] == letter(d));
    assert(charset.is_ascii());
    let mut id = String::new();
    let mut rest = n;
    let mut i: usize = 0;
    while i < ID_LENGTH
        invariant
            i <= ID_LENGTH,
            id@ + number_text(rest as nat, (ID_LENGTH - i) as nat) == number_text(n as nat, ID_LENGTH as nat),
            charset@.len() == 26,
            forall|d: int| 0 <= d < 26 ==> #[trigger] charset@[d] == letter(d),
            charset.is_ascii(),
        decreases ID_LENGTH - i,
    {
        let digit = (rest % 26) as usize;
        let one_char = charset.substring_ascii(digit, digit + 1);
        let ghost before = id@;
        id.append(one_char);
        proof {
            assert(one_char@ =~= seq![letter(digit as int)]);
            assert(before + number_text(rest as nat, (ID_LENGTH - i) as nat) =~= id@ + number_text(
                (rest / 26) as nat,
                (ID_LENGTH - i - 1) as nat,
            ));
        }
        rest = rest / 26;
        i += 1;
    }
    assert(id@ =~= id@ + number_text(rest as nat, 0));
    id
}

} // verus!
