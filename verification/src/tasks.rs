//! Workloads that keep a processor busy: recursion, arithmetic, and the
//! building of strings, vectors and maps.

use crate::callgraph::{insert_ascending, lists};
use crate::string_map::{entries_map, StringMap};
use crate::text::{decimal, push_decimal};
use vstd::arithmetic::div_mod::lemma_add_mod_noop;
use vstd::arithmetic::power2::{lemma2_to64_rest, lemma_pow2_strictly_increases, lemma_pow2_unfold, pow2};
use vstd::prelude::*;
use vstd::string::StringExecFns;

verus! {

/// The Fibonacci numbers: 0, 1, 1, 2, 3, 5, ...
pub open spec fn fib(n: nat) -> nat
    decreases n,
{
    if n <= 1 {
        n
    } else {
        fib((n - 1) as nat) + fib((n - 2) as nat)
    }
}

/// The sum over a full binary tree of the given depth, where a leaf counts 1
/// and an inner node counts its height.
pub open spec fn tree_sum(depth: nat) -> nat
    decreases depth,
{
    if depth == 0 {
        1
    } else {
        2 * tree_sum((depth - 1) as nat) + depth
    }
}

/// The sum of the squares of the numbers below `n`.
pub open spec fn sum_of_squares(n: nat) -> nat
    decreases n,
{
    if n == 0 {
        0
    } else {
        sum_of_squares((n - 1) as nat) + ((n - 1) * (n - 1)) as nat
    }
}

/// The sum of the squares of the numbers below `n`, as far as 64 bits hold it.
pub open spec fn squares_mod(n: nat) -> u64 {
    (sum_of_squares(n) % 0x1_0000_0000_0000_0000) as u64
}

/// The Fibonacci numbers do not fall.
pub proof fn lemma_fib_monotonic(i: nat, j: nat)
    requires
        i <= j,
    ensures
        fib(i) <= fib(j),
    decreases j - i,
{
    if j < 2 {
    } else if i == j {
    } else if i == j - 1 {
    } else {
        lemma_fib_monotonic(i, (j - 1) as nat);
        lemma_fib_monotonic(i, (j - 2) as nat);
    }
}

/// The Fibonacci numbers up to the 31st.
proof fn lemma_fib_to_31()
    ensures
        fib(30) == 832040,
        fib(31) == 1346269,
{
    assert(fib(0) == 0);
    assert(fib(1) == 1);
    assert(fib(2) == 1);
    assert(fib(3) == 2);
    assert(fib(4) == 3);
    assert(fib(5) == 5);
    assert(fib(6) == 8);
    assert(fib(7) == 13);
    assert(fib(8) == 21);
    assert(fib(9) == 34);
    assert(fib(10) == 55);
    assert(fib(11) == 89);
    assert(fib(12) == 144);
    assert(fib(13) == 233);
    assert(fib(14) == 377);
    assert(fib(15) == 610);
    assert(fib(16) == 987);
    assert(fib(17) == 1597);
    assert(fib(18) == 2584);
    assert(fib(19) == 4181);
    assert(fib(20) == 6765);
    assert(fib(21) == 10946);
    assert(fib(22) == 17711);
    assert(fib(23) == 28657);
    assert(fib(24) == 46368);
    assert(fib(25) == 75025);
    assert(fib(26) == 121393);
    assert(fib(27) == 196418);
    assert(fib(28) == 317811);
    assert(fib(29) == 514229);
    assert(fib(30) == 832040);
    assert(fib(31) == 1346269);
}

/// The Fibonacci numbers up to the 62nd.
proof fn lemma_fib_to_62()
    ensures
        fib(61) == 2504730781961,
        fib(62) == 4052739537881,
{
    lemma_fib_to_31();
    assert(fib(32) == 2178309);
    assert(fib(33) == 3524578);
    assert(fib(34) == 5702887);
    assert(fib(35) == 9227465);
    assert(fib(36) == 14930352);
    assert(fib(37) == 24157817);
    assert(fib(38) == 39088169);
    assert(fib(39) == 63245986);
    assert(fib(40) == 102334155);
    assert(fib(41) == 165580141);
    assert(fib(42) == 267914296);
    assert(fib(43) == 433494437);
    assert(fib(44) == 701408733);
    assert(fib(45) == 1134903170);
    assert(fib(46) == 1836311903);
    assert(fib(47) == 2971215073);
    assert(fib(48) == 4807526976);
    assert(fib(49) == 7778742049);
    assert(fib(50) == 12586269025);
    assert(fib(51) == 20365011074);
    assert(fib(52) == 32951280099);
    assert(fib(53) == 53316291173);
    assert(fib(54) == 86267571272);
    assert(fib(55) == 139583862445);
    assert(fib(56) == 225851433717);
    assert(fib(57) == 365435296162);
    assert(fib(58) == 591286729879);
    assert(fib(59) == 956722026041);
    assert(fib(60) == 1548008755920);
    assert(fib(61) == 2504730781961);
    assert(fib(62) == 4052739537881);
}

/// The 93rd Fibonacci number, the last that fits in 64 bits.
pub proof fn lemma_fib_93()
    ensures
        fib(93) == 12200160415121876738,
{
    lemma_fib_to_62();
    assert(fib(63) == 6557470319842);
    assert(fib(64) == 10610209857723);
    assert(fib(65) == 17167680177565);
    assert(fib(66) == 27777890035288);
    assert(fib(67) == 44945570212853);
    assert(fib(68) == 72723460248141);
    assert(fib(69) == 117669030460994);
    assert(fib(70) == 190392490709135);
    assert(fib(71) == 308061521170129);
    assert(fib(72) == 498454011879264);
    assert(fib(73) == 806515533049393);
    assert(fib(74) == 1304969544928657);
    assert(fib(75) == 2111485077978050);
    assert(fib(76) == 3416454622906707);
    assert(fib(77) == 5527939700884757);
    assert(fib(78) == 8944394323791464);
    assert(fib(79) == 14472334024676221);
    assert(fib(80) == 23416728348467685);
    assert(fib(81) == 37889062373143906);
    assert(fib(82) == 61305790721611591);
    assert(fib(83) == 99194853094755497);
    assert(fib(84) == 160500643816367088);
    assert(fib(85) == 259695496911122585);
    assert(fib(86) == 420196140727489673);
    assert(fib(87) == 679891637638612258);
    assert(fib(88) == 1100087778366101931);
    assert(fib(89) == 1779979416004714189);
    assert(fib(90) == 2880067194370816120);
    assert(fib(91) == 4660046610375530309);
    assert(fib(92) == 7540113804746346429);
    assert(fib(93) == 12200160415121876738);
}

/// The tree sum in closed form: three times a power of two, less the depth
/// and two.
pub proof fn lemma_tree_sum_closed(depth: nat)
    ensures
        tree_sum(depth) + depth + 2 == 3 * pow2(depth),
    decreases depth,
{
    if depth == 0 {
        assert(pow2(0) == 1) by {
            vstd::arithmetic::power2::lemma2_to64();
        }
    } else {
        lemma_tree_sum_closed((depth - 1) as nat);
        lemma_pow2_unfold(depth);
    }
}

/// Up to depth 62 the tree sum fits in 64 bits.
pub proof fn lemma_tree_sum_fits(depth: nat)
    requires
        depth <= 62,
    ensures
        tree_sum(depth) <= u64::MAX,
{
    lemma_tree_sum_closed(depth);
    lemma2_to64_rest();
    if depth < 62 {
        lemma_pow2_strictly_increases(depth, 62);
    }
}

/// The `n`th Fibonacci number, by the recursion that defines it.
pub fn fibonacci(n: u64) -> (f: u64)
    requires
        n <= 93,
    ensures
        f == fib(n as nat),
    decreases n,
{
    if n <= 1 {
        return n;
    }
    proof {
        lemma_fib_monotonic(n as nat, 93);
        lemma_fib_93();
    }
    fibonacci(n - 1) + fibonacci(n - 2)
}

/// The sum over a full binary tree of the given depth, visiting every node.
pub fn binary_tree_sum(depth: u32) -> (sum: u64)
    requires
        depth <= 62,
    ensures
        sum == tree_sum(depth as nat),
    decreases depth,
{
    if depth == 0 {
        return 1;
    }
    let left = binary_tree_sum(depth - 1);
    let right = binary_tree_sum(depth - 1);
    proof {
        lemma_tree_sum_fits(depth as nat);
    }
    left + right + depth as u64
}

/// The sum of the squares of the numbers below `iterations`, wrapping at 64
/// bits.
pub fn heavy_computation(iterations: u64) -> (result: u64)
    ensures
        result == squares_mod(iterations as nat),
{
    let mut result: u64 = 0;
    let mut i: u64 = 0;
    while i < iterations
        invariant
            i <= iterations,
            result == squares_mod(i as nat),
        decreases iterations - i,
    {
        let square = i.wrapping_mul(i);
        proof {
            let m = 0x1_0000_0000_0000_0000int;
            let before = sum_of_squares(i as nat) as int;
            assert(square == (i * i) % m);
            assert(result == before % m);
            lemma_add_mod_noop(before, i * i, m);
            assert(sum_of_squares((i + 1) as nat) == before + i * i);
            let sum = result + square;
            assert(0 <= sum < 2 * m);
            if sum >= m {
                assert(sum % m == sum - m) by {
                    vstd::arithmetic::div_mod::lemma_fundamental_div_mod_converse(
                        sum,
                        m,
                        1,
                        sum - m,
                    );
                }
            } else {
                assert(sum % m == sum) by {
                    vstd::arithmetic::div_mod::lemma_small_mod(sum as nat, m as nat);
                }
            }
        }
        result = result.wrapping_add(square);
        i += 1;
    }
    result
}

/// One line of the processing report.
pub open spec fn processing_line(i: nat) -> Seq<char> {
    "Processing item "@ + decimal(i) + ": "@ + decimal(fib(i % 15)) + "\n"@
}

/// The first `n` lines of the processing report.
pub open spec fn processing_text(n: nat) -> Seq<char>
    decreases n,
{
    if n == 0 {
        Seq::empty()
    } else {
        processing_text((n - 1) as nat) + processing_line((n - 1) as nat)
    }
}

/// The `i`th item of the memory workload.
pub open spec fn item_text(i: nat) -> Seq<char> {
    "Item "@ + decimal(i) + ": "@ + processing_text(100)
}

/// The key of the `i`th entry of the map workload.
pub open spec fn key_text(i: nat) -> Seq<char> {
    "key_"@ + decimal(fib(i % 10))
}

/// The map after the first `n` entries of the map workload.
pub open spec fn keyed(n: nat) -> Map<Seq<char>, u64>
    decreases n,
{
    if n == 0 {
        Map::empty()
    } else {
        keyed((n - 1) as nat).insert(
            key_text((n - 1) as nat),
            squares_mod(((n - 1) % 500) as nat),
        )
    }
}

/// The Fibonacci numbers that the vector workload meets on `size` steps.
pub open spec fn fib_residues(size: nat) -> Set<u64> {
    Set::new(|f: u64| exists|x: nat| x < size && f == #[trigger] fib(x % 15))
}

/// The key that the pipeline gives to an entry with the key `key`.
pub open spec fn processed_key(key: Seq<char>) -> Seq<char> {
    "processed_"@ + key
}

/// The map that the pipeline makes of `n` entries.
pub open spec fn pipeline_map(n: nat) -> Map<Seq<char>, u64>
    decreases n,
{
    if n == 0 {
        Map::empty()
    } else {
        pipeline_map((n - 1) as nat).insert(
            processed_key(processing_text(100)),
            squares_mod(tree_sum(((n - 1) % 10) as nat) % 1000),
        )
    }
}

/// Writes a report of a hundred lines, each with a Fibonacci number.
pub fn string_processing() -> (result: String)
    ensures
        result@ == processing_text(100),
{
    let mut result = String::new();
    let mut i: u64 = 0;
    while i < 100
        invariant
            i <= 100,
            result@ == processing_text(i as nat),
        decreases 100 - i,
    {
        let ghost before = result@;
        result.append("Processing item ");
        push_decimal(&mut result, i);
        result.append(": ");
        let f = fibonacci(i % 15);
        push_decimal(&mut result, f);
        result.append("\n");
        proof {
            assert(result@ =~= before + processing_line(i as nat));
        }
        i += 1;
    }
    result
}

/// Fills a map with `size` entries under ten keys.
pub fn hash_map_operations(size: usize) -> (map: StringMap<u64>)
    ensures
        map.wf(),
        map@ == keyed(size as nat),
{
    let mut map: StringMap<u64> = StringMap::new();
    let mut i: usize = 0;
    while i < size
        invariant
            i <= size,
            map.wf(),
            map@ == keyed(i as nat),
        decreases size - i,
    {
        let mut key = String::from_str("key_");
        push_decimal(&mut key, fibonacci(i as u64 % 10));
        let value = heavy_computation(i as u64 % 500);
        map.insert(key, value);
        i += 1;
    }
    map
}

/// Collects the Fibonacci numbers met on `size` steps, each once, in
/// ascending order.
pub fn vector_operations(size: usize) -> (vec: Vec<u64>)
    ensures
        lists(vec@, fib_residues(size as nat)),
{
    let mut vec: Vec<u64> = Vec::new();
    let mut x: usize = 0;
    while x < size
        invariant
            x <= size,
            lists(vec@, fib_residues(x as nat)),
        decreases size - x,
    {
        let ghost before = vec@;
        let f = fibonacci(x as u64 % 15);
        insert_ascending(&mut vec, f);
        proof {
            assert forall|y: u64| vec@.contains(y) <==> fib_residues((x + 1) as nat).contains(
                y,
            ) by {
                if fib_residues((x + 1) as nat).contains(y) {
                    let w = choose|w: nat| w < x + 1 && y == #[trigger] fib(w % 15);
                    if w < x {
                        assert(fib_residues(x as nat).contains(y));
                    }
                }
                if before.contains(y) {
                    assert(fib_residues(x as nat).contains(y));
                    let w = choose|w: nat| w < x && y == #[trigger] fib(w % 15);
                    assert(w < x + 1);
                }
                if y == f {
                    assert(y == fib((x as nat) % 15));
                }
            }
        }
        x += 1;
    }
    vec
}

/// Makes ten thousand items, each holding a full processing report.
pub fn memory_intensive() -> (data: Vec<String>)
    ensures
        data@.len() == 10_000,
        forall|i: int| 0 <= i < 10_000 ==> (#[trigger] data@[i])@ == item_text(i as nat),
{
    let mut data: Vec<String> = Vec::new();
    let mut i: u64 = 0;
    while i < 10_000
        invariant
            i <= 10_000,
            data@.len() == i,
            forall|j: int| 0 <= j < i ==> (#[trigger] data@[j])@ == item_text(j as nat),
        decreases 10_000 - i,
    {
        let mut item = String::from_str("Item ");
        push_decimal(&mut item, i);
        item.append(": ");
        let report = string_processing();
        item.append(report.as_str());
        proof {
            assert(item@ =~= item_text(i as nat));
        }
        data.push(item);
        i += 1;
    }
    data
}

/// Makes `size` entries: a processing report as the key, a tree sum as the
/// value.
pub fn generate_complex_data(size: u64) -> (data: Vec<(String, u64)>)
    ensures
        data@.len() == size,
        forall|i: int|
            0 <= i < size ==> (#[trigger] data@[i]).0@ == processing_text(100) && data@[i].1
                == tree_sum((i % 10) as nat),
{
    let mut data: Vec<(String, u64)> = Vec::new();
    let mut i: u64 = 0;
    while i < size
        invariant
            i <= size,
            data@.len() == i,
            forall|j: int|
                0 <= j < i ==> (#[trigger] data@[j]).0@ == processing_text(100) && data@[j].1
                    == tree_sum((j % 10) as nat),
        decreases size - i,
    {
        let key = string_processing();
        let value = binary_tree_sum((i % 10) as u32);
        data.push((key, value));
        i += 1;
    }
    data
}

/// Gives every entry a new key and a new value.
pub fn transform_complex_data(data: Vec<(String, u64)>) -> (out: Vec<(String, u64)>)
    ensures
        out@.len() == data@.len(),
        forall|i: int|
            0 <= i < data@.len() ==> (#[trigger] out@[i]).0@ == processed_key(data@[i].0@)
                && out@[i].1 == squares_mod((data@[i].1 % 1000) as nat),
{
    let mut out: Vec<(String, u64)> = Vec::new();
    let mut i: usize = 0;
    while i < data.len()
        invariant
            i <= data.len(),
            out@.len() == i,
            forall|j: int|
                0 <= j < i ==> (#[trigger] out@[j]).0@ == processed_key(data@[j].0@) && out@[j].1
                    == squares_mod((data@[j].1 % 1000) as nat),
        decreases data.len() - i,
    {
        let new_value = heavy_computation(data[i].1 % 1000);
        let mut new_key = String::from_str("processed_");
        new_key.append(data[i].0.as_str());
        out.push((new_key, new_value));
        i += 1;
    }
    out
}

/// Collects the entries in a map; a later entry replaces an earlier one
/// with the same key.
pub fn aggregate_complex_results(data: Vec<(String, u64)>) -> (result: StringMap<u64>)
    ensures
        result.wf(),
        result@ == entries_map(data@),
{
    let mut result: StringMap<u64> = StringMap::new();
    let mut i: usize = 0;
    proof {
        assert(data@.take(0) =~= Seq::empty());
    }
    while i < data.len()
        invariant
            i <= data.len(),
            result.wf(),
            result@ == entries_map(data@.take(i as int)),
        decreases data.len() - i,
    {
        proof {
            assert(data@.take(i + 1).drop_last() =~= data@.take(i as int));
        }
        let key = data[i].0.clone();
        let value = data[i].1;
        result.insert(key, value);
        i += 1;
    }
    proof {
        assert(data@.take(i as int) =~= data@);
    }
    result
}

/// The map of a sequence of pipeline entries is the pipeline's map.
proof fn lemma_pipeline_map(entries: Seq<(String, u64)>, n: nat)
    requires
        n <= entries.len(),
        forall|i: int|
            0 <= i < entries.len() ==> (#[trigger] entries[i]).0@ == processed_key(
                processing_text(100),
            ) && entries[i].1 == squares_mod(tree_sum((i % 10) as nat) % 1000),
    ensures
        entries_map(entries.take(n as int)) == pipeline_map(n),
    decreases n,
{
    if n > 0 {
        lemma_pipeline_map(entries, (n - 1) as nat);
        assert(entries.take(n as int).drop_last() =~= entries.take(n - 1));
        assert(entries.take(n as int).last() == entries[n - 1]);
    } else {
        assert(entries.take(0) =~= Seq::empty());
    }
}

/// Generates `size` entries, transforms them and collects them in a map.
pub fn process_data_pipeline(size: u64) -> (result: StringMap<u64>)
    ensures
        result.wf(),
        result@ == pipeline_map(size as nat),
{
    let data = generate_complex_data(size);
    let processed = transform_complex_data(data);
    proof {
        assert forall|i: int| 0 <= i < processed@.len() implies (#[trigger] processed@[i]).0@
            == processed_key(processing_text(100)) && processed@[i].1 == squares_mod(
            tree_sum((i % 10) as nat) % 1000,
        ) by {
            assert(data@[i].0@ == processing_text(100));
        }
        lemma_pipeline_map(processed@, size as nat);
        assert(processed@.take(size as int) =~= processed@);
    }
    aggregate_complex_results(processed)
}

} // verus!
