//! Sorting a list of numbers and listing its even members.

use vstd::prelude::*;

use crate::strutil::dec_of_i32;

verus! {

/// Whether a number is even.
pub open spec fn is_even(x: i32) -> bool {
    (x as int) % 2 == 0
}

/// Where one number lands in an already sorted sequence.
pub open spec fn insert_sorted(x: i32, s: Seq<i32>) -> Seq<i32>
    decreases s.len(),
{
    if s.len() == 0 {
        seq![x]
    } else if x <= s[0] {
        seq![x] + s
    } else {
        seq![s[0]] + insert_sorted(x, s.drop_first())
    }
}

/// The sequence sorted ascending by repeated insertion.
pub open spec fn sort_spec(s: Seq<i32>) -> Seq<i32>
    decreases s.len(),
{
    if s.len() == 0 {
        Seq::empty()
    } else {
        insert_sorted(s.last(), sort_spec(s.drop_last()))
    }
}

/// The numbers rendered in decimal and joined with " - ".
pub open spec fn join_dashes(s: Seq<i32>) -> Seq<char> {
    if s.len() == 0 {
        Seq::empty()
    } else {
        dec_of_i32(s[0] as int) + join_more(s.drop_first())
    }
}

/// The numbers after the first, each preceded by the separator.
pub open spec fn join_more(s: Seq<i32>) -> Seq<char>
    decreases s.len(),
{
    if s.len() == 0 {
        Seq::empty()
    } else {
        " - "@ + dec_of_i32(s[0] as int) + join_more(s.drop_first())
    }
}

proof fn lemma_join_more_push(s: Seq<i32>, x: i32)
    ensures
        join_more(s.push(x)) == join_more(s) + (" - "@ + dec_of_i32(x as int)),
    decreases s.len(),
{
    if s.len() == 0 {
        assert(s.push(x)[0] == x);
        assert(s.push(x).drop_first() =~= Seq::<i32>::empty());
        assert(join_more(Seq::<i32>::empty()) == Seq::<char>::empty());
        assert(join_more(s.push(x)) == " - "@ + dec_of_i32(x as int) + join_more(
            Seq::<i32>::empty(),
        ));
        assert(join_more(s.push(x)) =~= join_more(s) + (" - "@ + dec_of_i32(x as int)));
    } else {
        assert(s.push(x)[0] == s[0]);
        assert(s.push(x).drop_first() =~= s.drop_first().push(x));
        lemma_join_more_push(s.drop_first(), x);
        assert(join_more(s.push(x)) == " - "@ + dec_of_i32(s[0] as int) + (join_more(
            s.drop_first(),
        ) + (" - "@ + dec_of_i32(x as int))));
        assert(join_more(s.push(x)) =~= join_more(s) + (" - "@ + dec_of_i32(x as int)));
    }
}

proof fn lemma_join_dashes_push(s: Seq<i32>, x: i32)
    ensures
        join_dashes(s.push(x)) == if s.len() == 0 {
            dec_of_i32(x as int)
        } else {
            join_dashes(s) + (" - "@ + dec_of_i32(x as int))
        },
{
    if s.len() == 0 {
        assert(s.push(x)[0] == x);
        assert(s.push(x).drop_first() =~= Seq::<i32>::empty());
        assert(join_dashes(s.push(x)) =~= dec_of_i32(x as int));
    } else {
        assert(s.push(x)[0] == s[0]);
        assert(s.push(x).drop_first() =~= s.drop_first().push(x));
        lemma_join_more_push(s.drop_first(), x);
        assert(join_dashes(s.push(x)) =~= join_dashes(s) + (" - "@ + dec_of_i32(x as int)));
    }
}

proof fn lemma_insert_sorted_at(s: Seq<i32>, x: i32, j: int)
    requires
        0 <= j <= s.len(),
        forall|k: int| 0 <= k < j ==> s[k] < x,
        j == s.len() || x <= s[j],
    ensures
        insert_sorted(x, s) == s.insert(j, x),
    decreases j,
{
    if j == 0 {
        if s.len() == 0 {
            assert(s.insert(0, x) =~= seq![x]);
        } else {
            assert(s.insert(0, x) =~= seq![x] + s);
        }
    } else {
        assert(s[0] < x);
        lemma_insert_sorted_at(s.drop_first(), x, j - 1);
        assert(s.insert(j, x) =~= seq![s[0]] + s.drop_first().insert(j - 1, x));
    }
}

/// Inserts `x` at its place in an ascending vector.
fn insert_exec(v: &mut Vec<i32>, x: i32)
    ensures
        final (v)@ == insert_sorted(x, old(v)@),
{
    let mut j: usize = 0;
    let n = v.len();
    while j < n && v[j] < x
        invariant
            j <= n,
            n == v@.len(),
            forall|k: int| 0 <= k < j ==> v@[k] < x,
        decreases n - j,
    {
        j = j + 1;
    }
    proof {
        lemma_insert_sorted_at(v@, x, j as int);
    }
    v.insert(j, x);
}

/// Renders the even numbers, sorted ascending, one string with " - "
/// between them.
pub fn get_even_numbers(numbers: &[i32]) -> (r: String)
    ensures
        r@ == join_dashes(sort_spec(numbers@).filter(|x: i32| is_even(x))),
{
    let n = numbers.len();
    let mut sorted: Vec<i32> = Vec::new();
    let mut i: usize = 0;
    while i < n
        invariant
            i <= n,
            n == numbers@.len(),
            sorted@ == sort_spec(numbers@.take(i as int)),
        decreases n - i,
    {
        let x = *vstd::slice::slice_index_get(numbers, i);
        insert_exec(&mut sorted, x);
        proof {
            assert(numbers@.take(i + 1).drop_last() =~= numbers@.take(i as int));
            assert(numbers@.take(i + 1).last() == numbers@[i as int]);
        }
        i = i + 1;
    }
    proof {
        assert(numbers@.take(n as int) =~= numbers@);
    }
    let mut evens: Vec<i32> = Vec::new();
    let ghost whole = sorted@;
    let mut j: usize = 0;
    while j < sorted.len()
        invariant
            j <= sorted@.len(),
            whole == sorted@,
            evens@ == whole.take(j as int).filter(|x: i32| is_even(x)),
        decreases sorted@.len() - j,
    {
        let ghost prefix = whole.take(j as int);
        let x = sorted[j];
        proof {
            reveal_with_fuel(Seq::<_>::filter, 2);
            assert(whole.take(j + 1) =~= prefix.push(whole[j as int]));
            assert(prefix.push(whole[j as int]).drop_last() =~= prefix);
            assert(prefix.push(whole[j as int]).last() == whole[j as int]);
        }
        let rem = if x >= 0 {
            x % 2
        } else {
            let neg = -(x as i64);
            (neg % 2) as i32
        };
        proof {
            if x < 0 {
                assert((x as int) % 2 == (-(x as int)) % 2) by {
                    vstd::arithmetic::div_mod::lemma_fundamental_div_mod(x as int, 2);
                    vstd::arithmetic::div_mod::lemma_fundamental_div_mod(-(x as int), 2);
                }
            }
        }
        if rem == 0 {
            let ghost evens_before = evens@;
            evens.push(x);
            proof {
                assert(evens@ =~= evens_before.push(whole[j as int]));
            }
        }
        j = j + 1;
    }
    proof {
        assert(whole.take(whole.len() as int) =~= whole);
    }
    let mut out = String::new();
    let ghost all = evens@;
    let mut k: usize = 0;
    while k < evens.len()
        invariant
            k <= evens@.len(),
            all == evens@,
            out@ == join_dashes(all.take(k as int)),
        decreases evens@.len() - k,
    {
        let ghost prefix = all.take(k as int);
        if k > 0 {
            out.append(" - ");
        }
        let x = evens[k];
        let num = crate::strutil::i32_to_string(x);
        out.append(num.as_str());
        proof {
            assert(all.take(k + 1) =~= prefix.push(all[k as int]));
            lemma_join_dashes_push(prefix, all[k as int]);
            assert(out@ =~= join_dashes(all.take(k + 1)));
        }
        k = k + 1;
    }
    proof {
        assert(all.take(all.len() as int) =~= all);
    }
    out
}

} // verus!
