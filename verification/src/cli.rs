//! Command lines, and the files they name.

use crate::text;
use vstd::prelude::*;

verus! {

/// Where the first occurrence of a flag is, or the number of arguments.
pub open spec fn flag_at(args: Seq<String>, flag: Seq<char>) -> nat
    decreases args.len(),
{
    if args.len() == 0 || args[0]@ == flag {
        0
    } else {
        1 + flag_at(args.skip(1), flag)
    }
}

/// The argument after the first occurrence of a flag, or the default where there
/// is none.
pub open spec fn arg_of(args: Seq<String>, flag: Seq<char>, default: Seq<char>) -> Seq<char> {
    match value_of(args, flag) {
        Some(s) => s,
        None => default,
    }
}

/// The argument after a flag, or the default.
#[must_use]
pub fn arg_or(args: &[String], flag: &str, default: &str) -> (r: String)
    ensures
        r@ == arg_of(args@, flag@, default@),
{
    match optional_flag(args, flag) {
        Some(s) => s,
        None => default.to_owned(),
    }
}

/// The argument after the first occurrence of a flag.
pub open spec fn value_of(args: Seq<String>, flag: Seq<char>) -> Option<Seq<char>> {
    let n = flag_at(args, flag) as int;
    if n + 1 < args.len() {
        Some(args[n + 1]@)
    } else {
        None
    }
}

/// The argument after a flag, if the flag is there and anything follows it.
#[must_use]
pub fn optional_flag(args: &[String], flag: &str) -> (r: Option<String>)
    ensures
        match r {
            Some(s) => value_of(args@, flag@) == Some(s@),
            None => value_of(args@, flag@) is None,
        },
{
    let mut i: usize = 0;
    assert(args@.skip(0) =~= args@);
    while i < args.len() && !text::str_eq(args[i].as_str(), flag)
        invariant
            i <= args.len(),
            flag_at(args@, flag@) == i + flag_at(args@.skip(i as int), flag@),
        decreases args.len() - i,
    {
        assert(args@.skip(i as int).skip(1) =~= args@.skip(i + 1));
        i = i + 1;
    }
    if i < args.len() && args.len() - i > 1 {
        Some(args[i + 1].clone())
    } else {
        None
    }
}

/// What is said of a flag that is missing.
pub open spec fn missing(flag: Seq<char>) -> Seq<char> {
    "missing required flag "@ + flag
}

/// The argument after a flag.
///
/// # Errors
///
/// Where the flag is not there or nothing follows it.
pub fn required_flag(args: &[String], flag: &str) -> (r: Result<String, String>)
    ensures
        match r {
            Ok(s) => value_of(args@, flag@) == Some(s@),
            Err(e) => value_of(args@, flag@) is None && e@ == missing(flag@),
        },
{
    match optional_flag(args, flag) {
        Some(s) => Ok(s),
        None => Err(text::joined("missing required flag ", flag)),
    }
}

/// The seed of a key file: its first thirty-two bytes.
#[must_use]
pub fn seed_of(file: &[u8]) -> (r: Option<[u8; 32]>)
    ensures
        match r {
            Some(s) => file@.len() >= 32 && s@ == file@.take(32),
            None => file@.len() < 32,
        },
{
    if file.len() < 32 {
        return None;
    }
    let mut seed: [u8; 32] = [0u8; 32];
    let mut i: usize = 0;
    while i < 32
        invariant
            i <= 32 <= file@.len(),
            forall|k: int| 0 <= k < i ==> seed@[k] == file@[k],
        decreases 32 - i,
    {
        let b: u8 = file[i];
        seed[i] = b;
        i = i + 1;
    }
    assert(seed@ =~= file@.take(32));
    Some(seed)
}

/// The value of a flag is what follows its first occurrence.
pub proof fn law_value_follows_its_flag(
    before: Seq<String>,
    flag: String,
    value: String,
    behind: Seq<String>,
    default: Seq<char>,
)
    requires
        forall|i: int| 0 <= i < before.len() ==> (#[trigger] before[i])@ != flag@,
    ensures
        value_of(before, flag@) is None,
        value_of(before + seq![flag], flag@) is None,
        value_of(before + seq![flag, value] + behind, flag@) == Some(value@),
        arg_of(before, flag@, default) == default,
        arg_of(before + seq![flag, value] + behind, flag@, default) == value@,
{
    lemma_flag_at(before, flag, seq![value] + behind);
    lemma_flag_at(before, flag, Seq::empty());
    assert(before + seq![flag] + (seq![value] + behind) =~= before + seq![flag, value] + behind);
    assert(before + seq![flag] + Seq::<String>::empty() =~= before + seq![flag]);
    assert((before + seq![flag, value] + behind)[before.len() as int + 1] == value);
}

proof fn lemma_flag_at(before: Seq<String>, flag: String, behind: Seq<String>)
    requires
        forall|i: int| 0 <= i < before.len() ==> (#[trigger] before[i])@ != flag@,
    ensures
        flag_at(before, flag@) == before.len(),
        flag_at(before + seq![flag] + behind, flag@) == before.len(),
    decreases before.len(),
{
    let all = before + seq![flag] + behind;
    if before.len() > 0 {
        let less = before.skip(1);
        assert forall|i: int| 0 <= i < less.len() implies (#[trigger] less[i])@ != flag@ by {
            assert(less[i] == before[i + 1]);
        }
        lemma_flag_at(less, flag, behind);
        assert(all.skip(1) =~= less + seq![flag] + behind);
        assert(all[0] == before[0]);
        assert(before[0]@ != flag@);
    } else {
        assert(all[0] == flag);
    }
}

} // verus!
