//! Key combinations and the `when` clauses that enable key bindings.
use vstd::prelude::*;
use crate::text::{chars_of, lowercase, lower_of, contains, contains_chars, matches_at, occurs_at, trimmed, trim_chars, slice_chars};

verus! {

#[derive(PartialEq, Eq, Structural, Clone, Copy, Debug, Hash)]
pub enum Modifier {
    Ctrl,
    Shift,
    Alt,
    Meta,
}

/// One step of a chord: a key with its modifiers.
pub struct ChordPart {
    pub key: String,
    pub modifiers: Vec<Modifier>,
}

#[derive(PartialEq, Eq, Structural, Clone, Copy, Debug)]
pub enum KeybindingSource {
    Default,
    User,
}

/// The platform whose modifier conventions apply.
#[derive(PartialEq, Eq, Structural, Clone, Copy, Debug)]
pub enum Platform {
    MacOs,
    Other,
}

pub open spec fn rank(m: Modifier) -> int {
    match m {
        Modifier::Ctrl => 0,
        Modifier::Shift => 1,
        Modifier::Alt => 2,
        Modifier::Meta => 3,
    }
}

pub open spec fn modifier_name(m: Modifier) -> Seq<char> {
    match m {
        Modifier::Ctrl => "ctrl"@,
        Modifier::Shift => "shift"@,
        Modifier::Alt => "alt"@,
        Modifier::Meta => "meta"@,
    }
}

/// The names of the modifiers of rank `r`, in their order.
pub open spec fn names_of_rank(ms: Seq<Modifier>, r: int) -> Seq<Seq<char>>
    decreases ms.len(),
{
    if ms.len() == 0 {
        Seq::empty()
    } else {
        let rest = names_of_rank(ms.drop_last(), r);
        if rank(ms.last()) == r {
            rest.push(modifier_name(ms.last()))
        } else {
            rest
        }
    }
}

/// The parts of a normalized combination: modifier names ordered ctrl, shift,
/// alt, meta (repeats kept), then the lower-cased key.
pub open spec fn combo_parts(ms: Seq<Modifier>, key: Seq<char>) -> Seq<Seq<char>> {
    names_of_rank(ms, 0) + names_of_rank(ms, 1) + names_of_rank(ms, 2) + names_of_rank(ms, 3) + seq![
        lower_of(key),
    ]
}

/// Parts joined with `+`.
pub open spec fn plus_joined(parts: Seq<Seq<char>>) -> Seq<char>
    decreases parts.len(),
{
    if parts.len() == 0 {
        Seq::empty()
    } else if parts.len() == 1 {
        parts[0]
    } else {
        plus_joined(parts.drop_last()) + "+"@ + parts.last()
    }
}

fn name_of(m: Modifier) -> (r: &'static str)
    ensures
        r@ == modifier_name(m),
{
    match m {
        Modifier::Ctrl => "ctrl",
        Modifier::Shift => "shift",
        Modifier::Alt => "alt",
        Modifier::Meta => "meta",
    }
}

fn rank_of(m: Modifier) -> (r: u8)
    ensures
        r as int == rank(m),
{
    match m {
        Modifier::Ctrl => 0,
        Modifier::Shift => 1,
        Modifier::Alt => 2,
        Modifier::Meta => 3,
    }
}

pub open spec fn texts(v: Seq<String>) -> Seq<Seq<char>> {
    v.map_values(|s: String| s@)
}

/// A canonical text for a key combination, such as `ctrl+shift+p`.
pub fn normalize_key_combo(modifiers: &[Modifier], key: &str) -> (r: String)
    ensures
        r@ == plus_joined(combo_parts(modifiers@, key@)),
{
    let mut parts: Vec<String> = Vec::new();
    let ghost ms = modifiers@;
    let mut r: u8 = 0;
    while r < 4
        invariant
            r <= 4,
            ms == modifiers@,
            texts(parts@) == (if r == 0 {
                Seq::<Seq<char>>::empty()
            } else if r == 1 {
                names_of_rank(ms, 0)
            } else if r == 2 {
                names_of_rank(ms, 0) + names_of_rank(ms, 1)
            } else if r == 3 {
                names_of_rank(ms, 0) + names_of_rank(ms, 1) + names_of_rank(ms, 2)
            } else {
                names_of_rank(ms, 0) + names_of_rank(ms, 1) + names_of_rank(ms, 2) + names_of_rank(ms, 3)
            }),
        decreases 4 - r,
    {
        let ghost start = texts(parts@);
        let mut k: usize = 0;
        while k < modifiers.len()
            invariant
                k <= ms.len(),
                ms == modifiers@,
                r < 4,
                texts(parts@) == start + names_of_rank(ms.subrange(0, k as int), r as int),
            decreases modifiers.len() - k,
        {
            let ghost before = parts@;
            proof {
                assert(ms.subrange(0, k + 1).drop_last() =~= ms.subrange(0, k as int));
            }
            if rank_of(modifiers[k]) == r {
                parts.push(String::from_str(name_of(modifiers[k])));
                proof {
                    assert(texts(parts@) =~= texts(before).push(modifier_name(ms[k as int])));
                }
            }
            k = k + 1;
        }
        proof {
            assert(ms.subrange(0, k as int) =~= ms);
        }
        r = r + 1;
    }
    let ghost before = parts@;
    parts.push(lowercase(key));
    proof {
        assert(texts(parts@) =~= texts(before).push(lower_of(key@)));
        assert(texts(parts@) =~= combo_parts(ms, key@));
    }
    let mut out = String::new();
    let mut k: usize = 0;
    while k < parts.len()
        invariant
            k <= parts@.len(),
            out@ == plus_joined(texts(parts@).subrange(0, k as int)),
        decreases parts.len() - k,
    {
        if k > 0 {
            out = out.concat("+");
        }
        out = out.concat(parts[k].as_str());
        proof {
            let ts = texts(parts@);
            assert(ts.subrange(0, k + 1).drop_last() =~= ts.subrange(0, k as int));
            if k == 0 {
                assert(out@ =~= ts.subrange(0, 1)[0]);
            }
        }
        k = k + 1;
    }
    proof {
        assert(texts(parts@).subrange(0, k as int) =~= texts(parts@));
    }
    out
}

/// The modifier that `m` stands for on a platform: the command key's role is
/// played by Ctrl outside macOS and by Meta on it.
pub open spec fn platform_modifier(m: Modifier, p: Platform) -> Modifier {
    match p {
        Platform::MacOs => if m == Modifier::Ctrl {
            Modifier::Meta
        } else {
            m
        },
        Platform::Other => if m == Modifier::Meta {
            Modifier::Ctrl
        } else {
            m
        },
    }
}

/// Maps modifiers to the platform's conventions: Ctrl becomes Meta on macOS,
/// Meta becomes Ctrl elsewhere.
pub fn normalize_platform_modifiers(modifiers: Vec<Modifier>, platform: Platform) -> (r: Vec<Modifier>)
    ensures
        r@.len() == modifiers@.len(),
        forall|i: int| 0 <= i < r@.len() ==> #[trigger] r@[i] == platform_modifier(modifiers@[i], platform),
{
    let mut out: Vec<Modifier> = Vec::new();
    let mut k: usize = 0;
    while k < modifiers.len()
        invariant
            k <= modifiers@.len(),
            out@.len() == k,
            forall|i: int| 0 <= i < k ==> #[trigger] out@[i] == platform_modifier(modifiers@[i], platform),
        decreases modifiers.len() - k,
    {
        let m = modifiers[k];
        let mapped = match platform {
            Platform::MacOs => if m == Modifier::Ctrl {
                Modifier::Meta
            } else {
                m
            },
            Platform::Other => if m == Modifier::Meta {
                Modifier::Ctrl
            } else {
                m
            },
        };
        out.push(mapped);
        k = k + 1;
    }
    out
}

/// First start of `&&` at or after `i`, or the length.
pub open spec fn and_from(s: Seq<char>, i: int) -> int
    decreases s.len() - i,
{
    if i < 0 || i >= s.len() {
        s.len() as int
    } else if occurs_at(s, "&&"@, i) {
        i
    } else {
        and_from(s, i + 1)
    }
}

/// The parts of `s` from `i` between `&&` separators, as `str::split("&&")` gives them.
pub open spec fn and_parts(s: Seq<char>, i: int) -> Seq<Seq<char>>
    decreases s.len() - i + 1,
{
    let k = and_from(s, i);
    if i < 0 || i > s.len() || k < i || k >= s.len() {
        seq![s.subrange(i, s.len() as int)]
    } else {
        seq![s.subrange(i, k)] + and_parts(s, k + 2)
    }
}

/// One condition holds of the context: `!c` when `c` does not occur in it,
/// `c` when it does.
pub open spec fn condition_holds(part: Seq<char>, context: Seq<char>) -> bool {
    let t = trimmed(part);
    if t.len() > 0 && t[0] == '!' {
        !contains(context, t.subrange(1, t.len() as int))
    } else {
        contains(context, t)
    }
}

proof fn lemma_and_from(s: Seq<char>, i: int)
    requires
        0 <= i <= s.len(),
    ensures
        i <= and_from(s, i) <= s.len(),
        and_from(s, i) < s.len() ==> and_from(s, i) + 2 <= s.len(),
    decreases s.len() - i,
{
    reveal_strlit("&&");
    if i < s.len() && !occurs_at(s, "&&"@, i) {
        lemma_and_from(s, i + 1);
    }
}

/// Whether every `&&`-separated condition of `when` holds of `context`.
pub fn evaluate_when_clause(when: &str, context: &str) -> (r: bool)
    ensures
        r == forall|k: int|
            0 <= k < and_parts(when@, 0).len() ==> condition_holds(#[trigger] and_parts(when@, 0)[k], context@),
{
    proof {
        reveal_strlit("&&");
    }
    let w = chars_of(when);
    let ctx = chars_of(context);
    let sep = chars_of("&&");
    let n = w.len();
    let mut start: usize = 0;
    let mut i: usize = 0;
    let ghost all = and_parts(w@, 0);
    let ghost mut done: Seq<Seq<char>> = Seq::empty();
    loop
        invariant
            n == w@.len(),
            sep@ == "&&"@,
            w@ == when@,
            ctx@ == context@,
            start <= i <= n,
            and_from(w@, start as int) == and_from(w@, i as int),
            done + and_parts(w@, start as int) == all,
            all == and_parts(w@, 0),
            forall|k: int| 0 <= k < done.len() ==> condition_holds(#[trigger] done[k], context@),
        decreases n - i,
    {
        proof {
            lemma_and_from(w@, i as int);
        }
        let at_sep = i < n && matches_at(&w, &sep, i);
        if i >= n || at_sep {
            let part = slice_chars(&w, start, i);
            let t = trim_chars(&part);
            let holds = if t.len() > 0 && t[0] == '!' {
                !contains_chars(&ctx, &slice_chars(&t, 1, t.len()))
            } else {
                contains_chars(&ctx, &t)
            };
            if !holds {
                proof {
                    if i >= n {
                        assert(and_parts(w@, start as int) == seq![part@]);
                    } else {
                        assert(and_parts(w@, start as int) == seq![part@] + and_parts(w@, i + 2));
                    }
                    assert(all[done.len() as int] == part@);
                }
                return false;
            }
            if i >= n {
                proof {
                    assert(and_parts(w@, start as int) == seq![part@]);
                    assert forall|k: int| 0 <= k < all.len() implies condition_holds(#[trigger] all[k], context@) by {
                        if k < done.len() {
                            assert(all[k] == done[k]);
                        } else {
                            assert(all[k] == part@);
                        }
                    }
                }
                return true;
            }
            proof {
                assert(and_parts(w@, start as int) == seq![part@] + and_parts(w@, i + 2));
                let d2 = done.push(part@);
                assert(d2 + and_parts(w@, i + 2) =~= done + and_parts(w@, start as int));
                done = d2;
            }
            start = i + 2;
            i = i + 2;
        } else {
            i = i + 1;
        }
    }
}

} // verus!
