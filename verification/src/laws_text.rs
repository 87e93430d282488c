//! What the operations on texts come to, said of the characters themselves.

use vstd::prelude::*;
use vstd::string::*;

use crate::claims;
use crate::entitlement;
use crate::entitlement::{CallerContext, EntitlementPolicy, MaskMode};
use crate::laws;
use crate::names;
use crate::text;

verus! {

// ---------------------------------------------------------------------------------------------
// Characters
// ---------------------------------------------------------------------------------------------
/// The code point of a character.
pub open spec fn code(c: char) -> int {
    c as u32 as int
}

/// Whether a code point is white space in Unicode.
pub open spec fn white(c: char) -> bool {
    ||| 9 <= code(c) <= 13
    ||| code(c) == 32
    ||| code(c) == 133
    ||| code(c) == 160
    ||| code(c) == 5760
    ||| 8192 <= code(c) <= 8202
    ||| code(c) == 8232
    ||| code(c) == 8233
    ||| code(c) == 8239
    ||| code(c) == 8287
    ||| code(c) == 12288
}

/// Whether a text holds nothing but white space.
pub open spec fn all_white(s: Seq<char>) -> bool {
    forall|i: int| 0 <= i < s.len() ==> white(#[trigger] s[i])
}

/// Whether a text is empty, or begins and ends with something else than white space.
pub open spec fn is_core(s: Seq<char>) -> bool {
    s.len() == 0 || (!white(s.first()) && !white(s.last()))
}

/// Whether a text is ASCII.
pub open spec fn plain(s: Seq<char>) -> bool {
    forall|i: int| 0 <= i < s.len() ==> code(#[trigger] s[i]) < 128
}

/// A character with an upper-case ASCII letter moved to its lower-case form.
pub open spec fn lower(c: char) -> char {
    if 65 <= code(c) <= 90 {
        (code(c) + 32) as char
    } else {
        c
    }
}

/// A text with its upper-case ASCII letters in lower case.
pub open spec fn lowered(s: Seq<char>) -> Seq<char> {
    Seq::new(s.len(), |i: int| lower(s[i]))
}

/// A text in lower case.
pub open spec fn in_lower_case(s: Seq<char>) -> Seq<char> {
    if plain(s) {
        lowered(s)
    } else {
        text::unicode_lowercase(s)
    }
}

/// What counts as white space.
pub proof fn law_white_space(c: char)
    ensures
        text::is_space(c) == white(c),
{
}

/// What lower case is: letter by letter on ASCII text, and otherwise what Unicode has it to be.
pub proof fn law_lower_case(s: Seq<char>)
    ensures
        text::ascii_lowercase(s) == lowered(s),
        text::lowercase(s) == in_lower_case(s),
        text::is_ascii_text(s) == plain(s),
{
    assert(text::ascii_lowercase(s) =~= lowered(s));
    if plain(s) {
        assert forall|i: int| 0 <= i < s.len() implies (#[trigger] s[i]) as u32 <= 127 by {
            assert(code(s[i]) < 128);
        }
    }
    if text::is_ascii_text(s) {
        assert forall|i: int| 0 <= i < s.len() implies code(#[trigger] s[i]) < 128 by {
            assert(s[i] as u32 <= 127);
        }
    }
}

// ---------------------------------------------------------------------------------------------
// Trimming, splitting and searching
// ---------------------------------------------------------------------------------------------
proof fn lemma_trimmed_start_of(pre: Seq<char>, rest: Seq<char>)
    requires
        all_white(pre),
        rest.len() == 0 || !white(rest.first()),
    ensures
        text::trimmed_start(pre + rest) == rest,
    decreases pre.len(),
{
    let s = pre + rest;
    if pre.len() > 0 {
        assert(white(pre[0]));
        assert(s.first() == pre[0]);
        law_white_space(pre[0]);
        assert(s.drop_first() =~= pre.drop_first() + rest);
        lemma_trimmed_start_of(pre.drop_first(), rest);
    } else {
        assert(s =~= rest);
        if rest.len() > 0 {
            law_white_space(rest.first());
        }
    }
}

proof fn lemma_trimmed_end_of(core: Seq<char>, post: Seq<char>)
    requires
        all_white(post),
        core.len() == 0 || !white(core.last()),
    ensures
        text::trimmed_end(core + post) == core,
    decreases post.len(),
{
    let s = core + post;
    if post.len() > 0 {
        assert(white(post[post.len() - 1]));
        assert(s.last() == post.last());
        law_white_space(post.last());
        assert(s.drop_last() =~= core + post.drop_last());
        lemma_trimmed_end_of(core, post.drop_last());
    } else {
        assert(s =~= core);
        if core.len() > 0 {
            law_white_space(core.last());
        }
    }
}

/// Trimming takes away the white space at the two ends, and nothing else; a text is blank exactly
/// where nothing remains.
pub proof fn law_trimming(pre: Seq<char>, core: Seq<char>, post: Seq<char>)
    requires
        all_white(pre),
        all_white(post),
        is_core(core),
    ensures
        text::trimmed(pre + core + post) == core,
        core.len() > 0 ==> text::trimmed_start(pre + core + post) == core + post,
        core.len() == 0 ==> text::trimmed_start(pre + core + post) == Seq::<char>::empty(),
        text::blank(pre + core + post) == (core.len() == 0),
{
    let s = pre + core + post;
    if core.len() > 0 {
        assert(s =~= pre + (core + post));
        assert((core + post).first() == core.first());
        lemma_trimmed_start_of(pre, core + post);
        lemma_trimmed_end_of(core, post);
    } else {
        let none = Seq::<char>::empty();
        assert(s =~= (pre + post) + none);
        assert forall|i: int| 0 <= i < (pre + post).len() implies white(
            #[trigger] (pre + post)[i],
        ) by {
            if i < pre.len() {
                assert(white(pre[i]));
            } else {
                assert(white(post[i - pre.len()]));
            }
        }
        lemma_trimmed_start_of(pre + post, none);
        assert(text::trimmed(s) =~= core);
    }
}

/// Every text is white space, a core, and white space again.
pub proof fn law_every_text_has_a_core(s: Seq<char>)
    ensures
        exists|pre: Seq<char>, core: Seq<char>, post: Seq<char>|
            #![trigger pre + core + post]
            all_white(pre) && is_core(core) && all_white(post) && s == pre + core + post,
    decreases s.len(),
{
    let none = Seq::<char>::empty();
    if is_core(s) {
        assert(s =~= none + s + none);
    } else if white(s.first()) {
        let rest = s.drop_first();
        law_every_text_has_a_core(rest);
        let (pre, core, post) = choose|pre: Seq<char>, core: Seq<char>, post: Seq<char>|
            #![trigger pre + core + post]
            all_white(pre) && is_core(core) && all_white(post) && rest == pre + core + post;
        let more = seq![s.first()] + pre;
        assert forall|i: int| 0 <= i < more.len() implies white(#[trigger] more[i]) by {
            if i > 0 {
                assert(white(pre[i - 1]));
            }
        }
        assert(s =~= seq![s.first()] + rest);
        assert(s =~= more + core + post);
    } else {
        let rest = s.drop_last();
        law_every_text_has_a_core(rest);
        let (pre, core, post) = choose|pre: Seq<char>, core: Seq<char>, post: Seq<char>|
            #![trigger pre + core + post]
            all_white(pre) && is_core(core) && all_white(post) && rest == pre + core + post;
        let more = post.push(s.last());
        assert forall|i: int| 0 <= i < more.len() implies white(#[trigger] more[i]) by {
            if i < post.len() {
                assert(white(post[i]));
            }
        }
        assert(s =~= rest.push(s.last()));
        assert(s =~= pre + core + more);
    }
}

/// Texts with a separator between each two.
pub open spec fn joined(row: Seq<Seq<char>>, sep: char) -> Seq<char>
    decreases row.len(),
{
    if row.len() == 0 {
        Seq::empty()
    } else if row.len() == 1 {
        row[0]
    } else {
        joined(row.drop_last(), sep).push(sep) + row.last()
    }
}

/// Whether a character stands nowhere in a text.
pub open spec fn lacks(s: Seq<char>, c: char) -> bool {
    forall|i: int| 0 <= i < s.len() ==> #[trigger] s[i] != c
}

/// Whether a character stands in none of some texts.
pub open spec fn all_lack(row: Seq<Seq<char>>, c: char) -> bool {
    forall|i: int| 0 <= i < row.len() ==> lacks(#[trigger] row[i], c)
}

/// Splitting undoes joining: the pieces are the texts that stood between the separators.
pub proof fn law_splitting_undoes_joining(row: Seq<Seq<char>>, sep: char)
    requires
        row.len() > 0,
        all_lack(row, sep),
    ensures
        text::pieces(joined(row, sep), sep) == row,
    decreases row.len(),
{
    assert(lacks(row[row.len() - 1], sep));
    text::lemma_one_piece(row.last(), sep);
    if row.len() == 1 {
        assert(seq![row[0]] =~= row);
    } else {
        let rest = row.drop_last();
        assert forall|i: int| 0 <= i < rest.len() implies lacks(#[trigger] rest[i], sep) by {
            assert(lacks(row[i], sep));
        }
        law_splitting_undoes_joining(rest, sep);
        text::lemma_pieces_joined(joined(rest, sep), sep, row.last());
        assert(rest + seq![row.last()] =~= row);
    }
}

/// Joining undoes splitting: every text is its pieces, with separators between them.
pub proof fn law_joining_undoes_splitting(s: Seq<char>, sep: char)
    ensures
        text::pieces(s, sep).len() > 0,
        all_lack(text::pieces(s, sep), sep),
        joined(text::pieces(s, sep), sep) == s,
    decreases s.len(),
{
    if s.len() == 0 {
        assert(s =~= Seq::<char>::empty());
    } else {
        let rest = s.drop_last();
        let before = text::pieces(rest, sep);
        let all = text::pieces(s, sep);
        law_joining_undoes_splitting(rest, sep);
        assert forall|i: int| 0 <= i < all.len() implies lacks(#[trigger] all[i], sep) by {
            if i < before.len() {
                assert(lacks(before[i], sep));
            }
        }
        assert(s =~= rest.push(s.last()));
        if s.last() == sep {
            assert(all.drop_last() =~= before);
            assert(joined(all, sep) =~= s);
        } else {
            assert(all.drop_last() =~= before.drop_last());
            assert(all.last() == before.last().push(s.last()));
            assert(joined(all, sep) =~= s);
        }
    }
}

/// A prefix is taken off exactly where it stands.
pub proof fn law_prefixes(prefix: Seq<char>, rest: Seq<char>, s: Seq<char>)
    ensures
        text::after_prefix(prefix + rest, prefix) == Some(rest),
        text::after_prefix(s, prefix) matches Some(r) ==> s == prefix + r,
{
    assert(prefix =~= (prefix + rest).take(prefix.len() as int));
    assert((prefix + rest).skip(prefix.len() as int) =~= rest);
    if prefix.is_prefix_of(s) {
        assert(s =~= prefix + s.skip(prefix.len() as int));
    }
}

/// A part is found wherever it stands, and only where it does.
pub proof fn law_parts(pre: Seq<char>, part: Seq<char>, post: Seq<char>, s: Seq<char>)
    ensures
        text::has_part(pre + part + post, part),
        text::has_part(s, part) ==> exists|a: Seq<char>, b: Seq<char>| s == #[trigger] (a + part + b),
{
    let whole = pre + part + post;
    assert(whole.subrange(pre.len() as int, (pre.len() + part.len()) as int) =~= part);
    if text::has_part(s, part) {
        let at = choose|at: int|
            0 <= at <= s.len() - part.len() && #[trigger] s.subrange(at, at + part.len()) == part;
        let a = s.take(at);
        let b = s.skip(at + part.len());
        assert(s =~= a + part + b);
    }
}

// ---------------------------------------------------------------------------------------------
// Numbers
// ---------------------------------------------------------------------------------------------
/// The character of a digit.
pub open spec fn figure(d: int) -> char {
    (48 + d) as char
}

/// A number in decimal: its digits in base ten, the highest first.
pub proof fn law_decimals(n: nat, d: nat)
    requires
        d < 10,
    ensures
        text::decimal(d) == seq![figure(d as int)],
        n > 0 ==> text::decimal(10 * n + d) == text::decimal(n).push(figure(d as int)),
{
    if n > 0 {
        assert((10 * n + d) / 10 == n);
        assert((10 * n + d) % 10 == d);
    }
}

/// What number a text writes: each digit counts ten times what follows it does, a plus sign in
/// front changes nothing, and nothing else writes a number.
pub proof fn law_numbers(s: Seq<char>, c: char)
    ensures
        48 <= code(c) <= 57 ==> text::number_in(seq![c]) == Some((code(c) - 48) as nat),
        48 <= code(c) <= 57 ==> (text::number_in(s) matches Some(n) ==> text::number_in(s.push(c))
            == Some((10 * n + code(c) - 48) as nat)),
        text::number_in(s) is Some && code(s.first()) != 43 ==> text::number_in(seq!['+'] + s)
            == text::number_in(s),
        text::number_in(s) is Some ==> {
            &&& s.len() > 0
            &&& code(s.first()) == 43 ==> s.len() > 1
            &&& forall|i: int|
                0 <= i < s.len() ==> 48 <= code(#[trigger] s[i]) <= 57 || (i == 0 && code(s[i])
                    == 43)
        },
{
    if 48 <= code(c) <= 57 {
        let one = seq![c];
        assert(text::without_plus(one) == one);
        assert(one.drop_last() =~= Seq::<char>::empty());
        assert(text::digits_value(one.drop_last()) == 0);
        assert(text::digits_value(one) == code(c) - 48);
        if text::number_in(s) is Some {
            let digits = text::without_plus(s);
            let more = s.push(c);
            assert(text::without_plus(more) =~= digits.push(c));
            assert(digits.push(c).drop_last() =~= digits);
            assert forall|i: int| 0 <= i < digits.push(c).len() implies text::is_digit(
                #[trigger] digits.push(c)[i],
            ) by {
                if i < digits.len() {
                    assert(text::is_digit(digits[i]));
                }
            }
        }
    }
    if text::number_in(s) is Some {
        let digits = text::without_plus(s);
        let plus = seq!['+'] + s;
        assert(plus.drop_first() =~= s);
        assert forall|i: int| 0 <= i < s.len() implies 48 <= code(#[trigger] s[i]) <= 57 || (i == 0
            && code(s[i]) == 43) by {
            if s.first() == '+' {
                if i > 0 {
                    assert(text::is_digit(digits[i - 1]));
                }
            } else {
                assert(text::is_digit(digits[i]));
            }
        }
    }
}

// ---------------------------------------------------------------------------------------------
// The order of names
// ---------------------------------------------------------------------------------------------
proof fn lemma_bytes_differ(p: Seq<u8>, a: Seq<u8>, b: Seq<u8>)
    requires
        a.len() > 0,
        b.len() > 0,
        a.first() != b.first(),
    ensures
        names::bytes_before(p + a, p + b) == (a.first() < b.first()),
    decreases p.len(),
{
    if p.len() > 0 {
        assert((p + a).drop_first() =~= p.drop_first() + a);
        assert((p + b).drop_first() =~= p.drop_first() + b);
        lemma_bytes_differ(p.drop_first(), a, b);
    } else {
        assert(p + a =~= a);
        assert(p + b =~= b);
    }
}

proof fn lemma_bytes_longer(p: Seq<u8>, b: Seq<u8>)
    requires
        b.len() > 0,
    ensures
        names::bytes_before(p, p + b),
        !names::bytes_before(p + b, p),
    decreases p.len(),
{
    if p.len() > 0 {
        assert((p + b).drop_first() =~= p.drop_first() + b);
        lemma_bytes_longer(p.drop_first(), b);
    }
}

/// Names are ordered by the first byte in which they differ, and a name comes before those that
/// go on from it.
pub proof fn law_order_of_names(
    one: Seq<char>,
    other: Seq<char>,
    p: Seq<u8>,
    a: Seq<u8>,
    b: Seq<u8>,
)
    requires
        vstd::utf8::encode_utf8(one) == p + a,
        vstd::utf8::encode_utf8(other) == p + b,
        b.len() > 0,
        a.len() > 0 ==> a.first() != b.first(),
    ensures
        names::before(one, other) == (a.len() == 0 || a.first() < b.first()),
{
    if a.len() > 0 {
        lemma_bytes_differ(p, a, b);
    } else {
        assert(p + a =~= p);
        lemma_bytes_longer(p, b);
    }
}

/// A set of names holds the names that it lists.
pub proof fn law_sets_of_names(set: names::NameSet, name: Seq<char>)
    ensures
        set@.contains(name) <==> exists|i: int|
            0 <= i < set.names().len() && #[trigger] set.names()[i] == name,
{
    if set@.contains(name) {
        let i = choose|i: int| 0 <= i < set.names().len() && set.names()[i] == name;
        assert(set.names()[i] == name);
    }
}

/// What ascending order is: each name comes before every later one.
pub proof fn law_ascending_order(row: Seq<Seq<char>>)
    ensures
        names::ascending(row) <==> forall|i: int, j: int|
            0 <= i < j < row.len() ==> names::before(#[trigger] row[i], #[trigger] row[j]),
{
}

// ---------------------------------------------------------------------------------------------
// Claims
// ---------------------------------------------------------------------------------------------
/// The form in which a claim is compared: without the white space around it, in lower case. There
/// is no claim where nothing remains.
pub proof fn law_how_claims_are_compared(pre: Seq<char>, core: Seq<char>, post: Seq<char>)
    requires
        all_white(pre),
        all_white(post),
        is_core(core),
    ensures
        entitlement::normalized(pre + core + post) == in_lower_case(core),
        entitlement::claim(Some(pre + core + post)) == (if in_lower_case(core).len() > 0 {
            Some(in_lower_case(core))
        } else {
            None
        }),
        entitlement::claim(None) is None,
        claims::present(Some(pre + core + post)) == (if core.len() > 0 {
            Some(pre + core + post)
        } else {
            None
        }),
        claims::present(None) is None,
{
    law_trimming(pre, core, post);
    law_lower_case(core);
}

/// What a list of claims comes to: each entry that is not blank, without the white space around
/// it and in lower case, and nothing else.
pub proof fn law_listed_claims(row: Seq<Seq<char>>, claim: Seq<char>)
    requires
        row.len() > 0,
        all_lack(row, ','),
    ensures
        laws::listed(joined(row, ',')) == entitlement::claim_set(row),
        entitlement::claim_set(row).contains(claim) <==> claim.len() > 0 && exists|i: int|
            0 <= i < row.len() && text::lowercase(text::trimmed(#[trigger] row[i])) == claim,
{
    law_splitting_undoes_joining(row, ',');
    if entitlement::claim_set(row).contains(claim) {
        let i = choose|i: int| 0 <= i < row.len() && claim == entitlement::normalized(#[trigger] row[i]);
        assert(text::lowercase(text::trimmed(row[i])) == claim);
    }
    if claim.len() > 0 && exists|i: int|
        0 <= i < row.len() && text::lowercase(text::trimmed(#[trigger] row[i])) == claim {
        let i = choose|i: int|
            0 <= i < row.len() && text::lowercase(text::trimmed(#[trigger] row[i])) == claim;
        assert(claim == entitlement::normalized(row[i]));
    }
}

/// An entry of a list is among its claims, wherever it stands and whatever stands around it.
pub proof fn law_every_entry_counts(
    before: Seq<char>,
    pre: Seq<char>,
    core: Seq<char>,
    post: Seq<char>,
    after: Seq<char>,
)
    requires
        all_white(pre),
        all_white(post),
        is_core(core),
        lacks(core, ','),
        in_lower_case(core).len() > 0,
    ensures
        laws::listed(pre + core + post).contains(in_lower_case(core)),
        laws::listed(before.push(',') + (pre + core + post)).contains(in_lower_case(core)),
        laws::listed((pre + core + post).push(',') + after).contains(in_lower_case(core)),
        laws::listed(before.push(',') + (pre + core + post).push(',') + after).contains(
            in_lower_case(core),
        ),
        laws::listed(Seq::<char>::empty()) == Set::<Seq<char>>::empty(),
{
    let entry = pre + core + post;
    law_how_claims_are_compared(pre, core, post);
    assert forall|i: int| 0 <= i < entry.len() implies #[trigger] entry[i] != ',' by {
        if i < pre.len() {
            assert(white(pre[i]));
        } else if i < pre.len() + core.len() {
            assert(core[i - pre.len()] != ',');
        } else {
            assert(white(post[i - pre.len() - core.len()]));
        }
    }
    text::lemma_one_piece(entry, ',');
    assert(seq![entry][0] == entry);
    assert(laws::listed(entry).contains(in_lower_case(core)));
    reveal_strlit(",");
    laws::law_joined_lists_are_united(before, entry);
    assert(before + ","@ + entry =~= before.push(',') + entry);
    laws::law_joined_lists_are_united(entry, after);
    assert(entry + ","@ + after =~= entry.push(',') + after);
    laws::law_joined_lists_are_united(before, entry.push(',') + after);
    assert(before + ","@ + (entry.push(',') + after) =~= before.push(',') + entry.push(',')
        + after);
    let none = Seq::<char>::empty();
    law_how_claims_are_compared(none, none, none);
    assert(none + none + none =~= none);
    assert(text::pieces(none, ',') =~= seq![none]);
    assert(laws::listed(none) =~= Set::<Seq<char>>::empty());
}

/// The configured words for the modes, whatever their case and the white space around them.
pub proof fn law_words_for_modes(pre: Seq<char>, core: Seq<char>, post: Seq<char>)
    requires
        all_white(pre),
        all_white(post),
        is_core(core),
    ensures
        entitlement::mode_named(entitlement::normalized(pre + core + post)) == (if in_lower_case(
            core,
        ) == "nullify"@ || in_lower_case(core) == "null"@ {
            MaskMode::Nullify
        } else if in_lower_case(core) == "drop"@ || in_lower_case(core) == "remove"@ {
            MaskMode::Drop
        } else {
            MaskMode::Mask
        }),
{
    law_how_claims_are_compared(pre, core, post);
}

/// A caller is entitled exactly where the clearance is among the cleared levels and, unless no
/// purpose is enforced, the purpose is among the allowed ones, whatever else these hold.
pub proof fn law_who_is_entitled(caller: CallerContext, policy: EntitlementPolicy)
    ensures
        entitlement::entitled(caller, policy) <==> {
            &&& caller.clearance is Some
            &&& text::lowercase(text::trimmed(caller.clearance->0@)).len() > 0
            &&& policy.cleared_levels@.contains(
                text::lowercase(text::trimmed(caller.clearance->0@)),
            )
            &&& (forall|t: Seq<char>| !(#[trigger] policy.allowed_purposes@.contains(t))) || {
                &&& caller.purpose is Some
                &&& text::lowercase(text::trimmed(caller.purpose->0@)).len() > 0
                &&& policy.allowed_purposes@.contains(
                    text::lowercase(text::trimmed(caller.purpose->0@)),
                )
            }
        },
{
    if forall|t: Seq<char>| !(#[trigger] policy.allowed_purposes@.contains(t)) {
        assert(policy.allowed_purposes@ =~= Set::<Seq<char>>::empty());
    }
}

/// A cleared caller with an allowed purpose is entitled, whatever else is cleared or allowed; and
/// so is a cleared caller where no purpose is enforced.
pub proof fn law_cleared_callers_are_entitled(
    clearance: Seq<char>,
    purpose: Option<Seq<char>>,
    cleared: Set<Seq<char>>,
    allowed: Set<Seq<char>>,
)
    requires
        cleared.contains(clearance),
    ensures
        entitlement::admitted(Some(clearance), purpose, cleared, Set::empty()),
        purpose is Some && allowed.contains(purpose->0) ==> entitlement::admitted(
            Some(clearance),
            purpose,
            cleared,
            allowed,
        ),
{
}

} // verus!
