//! The template filters: an egg for a goalless side, the Danish genitive of a name,
//! and the absolute value.

use vstd::prelude::*;

verus! {

/// An egg in place of a score of 0; other scores stay as they are (`None`).
pub fn egg_filter(goals: i32) -> (r: Option<String>)
    ensures
        goals == 0 ==> (r matches Some(s) && s@ == "🥚"@),
        goals != 0 ==> r is None,
{
    if goals == 0 {
        Some(String::from_str("🥚"))
    } else {
        None
    }
}

/// Whether a name takes a bare apostrophe in the genitive.
pub open spec fn ends_in_sibilant(name: Seq<char>) -> bool {
    name.len() > 0 && (name.last() == 's' || name.last() == 'x' || name.last() == 'z')
}

/// The Danish genitive of `name`: an apostrophe after a final s, x or z, an s otherwise.
pub fn da_genitive_filter(name: String) -> (r: String)
    ensures
        r@ == name@ + if ends_in_sibilant(name@) { "'"@ } else { "s"@ },
        name@.len() > 0 && (name@.last() == 's' || name@.last() == 'x' || name@.last() == 'z') ==> r@
            == name@ + "'"@,
        !(name@.len() > 0 && (name@.last() == 's' || name@.last() == 'x' || name@.last() == 'z'))
            ==> r@ == name@ + "s"@,
{
    proof {
        lemma_genitive_by_last(name@);
    }
    let mut name = name;
    let n = name.as_str().unicode_len();
    let sibilant = if n > 0 {
        let c = name.as_str().get_char(n - 1);
        c == 's' || c == 'x' || c == 'z'
    } else {
        false
    };
    if sibilant {
        name.append("'");
    } else {
        name.append("s");
    }
    name
}

/// Law: whether a name takes the apostrophe depends on its last character alone: a name
/// ending in s, x or z takes it, any other name (the empty one too) does not, whatever
/// comes before.
pub proof fn lemma_genitive_by_last(name: Seq<char>)
    ensures
        ends_in_sibilant(name) <==> (name.len() > 0 && (name.last() == 's' || name.last() == 'x'
            || name.last() == 'z')),
        forall|prefix: Seq<char>, c: char| #[trigger] ends_in_sibilant(prefix.push(c)) <==> (c == 's' || c == 'x' || c == 'z'),
        !ends_in_sibilant(Seq::<char>::empty()),
{
    assert forall|prefix: Seq<char>, c: char| #[trigger] ends_in_sibilant(prefix.push(c)) <==> (c == 's' || c == 'x' || c == 'z') by {
        assert(prefix.push(c).last() == c);
    }
}

/// The absolute value of `num`.
pub fn abs_filter(num: i32) -> (r: i32)
    requires
        num != i32::MIN,
    ensures
        r == if num < 0 { -num } else { num as int },
{
    if num < 0 { -num } else { num }
}

} // verus!
