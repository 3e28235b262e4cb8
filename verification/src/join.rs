//! Joining string slices and integer slices with a separator, as `[T]::join` does.

use vstd::prelude::*;

verus! {

/// The parts of `parts` in order with `sep` between each two neighbours.
pub open spec fn seq_join<A>(parts: Seq<Seq<A>>, sep: Seq<A>) -> Seq<A>
    decreases parts.len(),
{
    if parts.len() == 0 {
        seq![]
    } else if parts.len() == 1 {
        parts[0]
    } else {
        seq_join(parts.drop_last(), sep) + sep + parts.last()
    }
}

/// The character sequences of a slice of string slices.
pub open spec fn str_views(parts: Seq<&str>) -> Seq<Seq<char>> {
    parts.map_values(|p: &str| p@)
}

/// The character sequences of a slice of strings.
pub open spec fn string_views(parts: Seq<String>) -> Seq<Seq<char>> {
    parts.map_values(|p: String| p@)
}

/// The element sequences of a slice of integer slices.
pub open spec fn slice_views(parts: Seq<&[i32]>) -> Seq<Seq<i32>> {
    parts.map_values(|p: &[i32]| p@)
}

proof fn lemma_join_step<A>(parts: Seq<Seq<A>>, sep: Seq<A>, i: int)
    requires
        0 < i < parts.len(),
    ensures
        seq_join(parts.take(i + 1), sep) == seq_join(parts.take(i), sep) + sep + parts[i],
{
    assert(parts.take(i + 1).drop_last() =~= parts.take(i));
}

/// Joins string slices with `sep`.
pub fn join_strs(parts: &[&str], sep: &str) -> (s: String)
    ensures
        s@ == seq_join(str_views(parts@), sep@),
{
    let ghost views = str_views(parts@);
    let mut s = String::new();
    let mut i: usize = 0;
    while i < parts.len()
        invariant
            0 <= i <= parts@.len(),
            views == str_views(parts@),
            s@ == seq_join(views.take(i as int), sep@),
        decreases parts@.len() - i,
    {
        if i > 0 {
            s.append(sep);
            proof {
                lemma_join_step(views, sep@, i as int);
            }
        } else {
            assert(views.take(1) =~= seq![views[0]]);
        }
        s.append(parts[i]);
        i = i + 1;
    }
    assert(views.take(i as int) =~= views);
    s
}

/// Joins strings with `sep`.
pub fn join_strings(parts: &[String], sep: &str) -> (s: String)
    ensures
        s@ == seq_join(string_views(parts@), sep@),
{
    let ghost views = string_views(parts@);
    let mut s = String::new();
    let mut i: usize = 0;
    while i < parts.len()
        invariant
            0 <= i <= parts@.len(),
            views == string_views(parts@),
            s@ == seq_join(views.take(i as int), sep@),
        decreases parts@.len() - i,
    {
        if i > 0 {
            s.append(sep);
            proof {
                lemma_join_step(views, sep@, i as int);
            }
        } else {
            assert(views.take(1) =~= seq![views[0]]);
        }
        s.append(parts[i].as_str());
        i = i + 1;
    }
    assert(views.take(i as int) =~= views);
    s
}

fn push_all(v: &mut Vec<i32>, xs: &[i32])
    ensures
        final(v)@ == old(v)@ + xs@,
{
    let mut j: usize = 0;
    let ghost start = v@;
    while j < xs.len()
        invariant
            0 <= j <= xs@.len(),
            v@ == start + xs@.take(j as int),
        decreases xs@.len() - j,
    {
        v.push(xs[j]);
        assert(xs@.take(j + 1) =~= xs@.take(j as int).push(xs@[j as int]));
        j = j + 1;
    }
    assert(xs@.take(j as int) =~= xs@);
}

/// Joins integer slices with the separator slice `sep`.
pub fn join_slices(parts: &[&[i32]], sep: &[i32]) -> (v: Vec<i32>)
    ensures
        v@ == seq_join(slice_views(parts@), sep@),
{
    let ghost views = slice_views(parts@);
    let mut v: Vec<i32> = Vec::new();
    let mut i: usize = 0;
    while i < parts.len()
        invariant
            0 <= i <= parts@.len(),
            views == slice_views(parts@),
            v@ == seq_join(views.take(i as int), sep@),
        decreases parts@.len() - i,
    {
        if i > 0 {
            push_all(&mut v, sep);
            proof {
                lemma_join_step(views, sep@, i as int);
            }
        } else {
            assert(views.take(1) =~= seq![views[0]]);
        }
        push_all(&mut v, parts[i]);
        i = i + 1;
    }
    assert(views.take(i as int) =~= views);
    v
}

/// "the rain in Spain", joined from an array of string slices.
pub fn join_string_slice_array_str() -> (s: String)
    ensures
        s@ == "the rain in Spain"@,
{
    let array: [&str; 4] = ["the", "rain", "in", "Spain"];
    let slice: &[&str] = &array;
    let s: String = join_strs(slice, " ");
    proof {
        lemma_four_words(slice@, s@);
    }
    s
}

/// The joined words, proved equal to "the rain in Spain".
proof fn lemma_four_words(words: Seq<&str>, joined: Seq<char>)
    requires
        words.len() == 4,
        words[0]@ == "the"@,
        words[1]@ == "rain"@,
        words[2]@ == "in"@,
        words[3]@ == "Spain"@,
        joined == seq_join(str_views(words), " "@),
    ensures
        joined == "the rain in Spain"@,
{
    reveal_strlit("the");
    reveal_strlit("rain");
    reveal_strlit("in");
    reveal_strlit("Spain");
    reveal_strlit(" ");
    reveal_strlit("the rain in Spain");
    let v = str_views(words);
    assert(v.drop_last().drop_last().drop_last() =~= seq![v[0]]);
    assert(v.drop_last().drop_last().last() == v[1]);
    assert(v.drop_last().last() == v[2]);
    reveal_with_fuel(seq_join, 4);
    assert(joined =~= "the rain in Spain"@);
}

/// [1, 2, -2, -1, 3, 4, 5, -2, -1, 6, 7, 8, 9], joined from integer slices with [-2, -1].
pub fn join_vector_slice_array_i32() -> (v: Vec<i32>)
    ensures
        v@ == seq![1i32, 2i32, -2i32, -1i32, 3i32, 4i32, 5i32, -2i32, -1i32, 6i32, 7i32, 8i32, 9i32],
{
    let a: [i32; 2] = [1, 2];
    let b: [i32; 3] = [3, 4, 5];
    let c: [i32; 4] = [6, 7, 8, 9];
    let sep: [i32; 2] = [-2, -1];
    let array: [&[i32]; 3] = [a.as_slice(), b.as_slice(), c.as_slice()];
    let slice: &[&[i32]] = &array;
    let v = join_slices(slice, sep.as_slice());
    proof {
        let w = slice_views(slice@);
        assert(w.drop_last().drop_last() =~= seq![w[0]]);
        assert(w.drop_last().last() == w[1]);
        reveal_with_fuel(seq_join, 3);
        assert(v@ =~= seq![1i32, 2i32, -2i32, -1i32, 3i32, 4i32, 5i32, -2i32, -1i32, 6i32, 7i32, 8i32, 9i32]);
    }
    v
}

/// "the rain in Spain", joined from an array of strings.
pub fn join_string_slice_array_string() -> (s: String)
    ensures
        s@ == "the rain in Spain"@,
{
    let array: [String; 4] = [
        "the".to_owned(),
        "rain".to_owned(),
        "in".to_owned(),
        "Spain".to_owned(),
    ];
    let slice: &[String] = &array;
    let s: String = join_strings(slice, " ");
    proof {
        lemma_four_strings(slice@, s@);
    }
    s
}

proof fn lemma_four_strings(words: Seq<String>, joined: Seq<char>)
    requires
        words.len() == 4,
        words[0]@ == "the"@,
        words[1]@ == "rain"@,
        words[2]@ == "in"@,
        words[3]@ == "Spain"@,
        joined == seq_join(string_views(words), " "@),
    ensures
        joined == "the rain in Spain"@,
{
    reveal_strlit("the");
    reveal_strlit("rain");
    reveal_strlit("in");
    reveal_strlit("Spain");
    reveal_strlit(" ");
    reveal_strlit("the rain in Spain");
    let v = string_views(words);
    assert(v.drop_last().drop_last().drop_last() =~= seq![v[0]]);
    assert(v.drop_last().drop_last().last() == v[1]);
    assert(v.drop_last().last() == v[2]);
    reveal_with_fuel(seq_join, 4);
    assert(joined =~= "the rain in Spain"@);
}

/// "the rain in Spain", joined from a vector of strings.
pub fn join_string_slice_vec_string() -> (s: String)
    ensures
        s@ == "the rain in Spain"@,
{
    let mut vec: Vec<String> = Vec::new();
    vec.push("the".to_owned());
    vec.push("rain".to_owned());
    vec.push("in".to_owned());
    vec.push("Spain".to_owned());
    let slice: &[String] = vec.as_slice();
    let s: String = join_strings(slice, " ");
    proof {
        lemma_four_strings(slice@, s@);
    }
    s
}

/// "the rain in Spain", joined from a vector of string slices.
pub fn join_string_slice_vec_str() -> (s: String)
    ensures
        s@ == "the rain in Spain"@,
{
    let mut vec: Vec<&str> = Vec::new();
    vec.push("the");
    vec.push("rain");
    vec.push("in");
    vec.push("Spain");
    let slice: &[&str] = vec.as_slice();
    let s: String = join_strs(slice, " ");
    proof {
        lemma_four_words(slice@, s@);
    }
    s
}

} // verus!
