//! Who may see sensitive fields, and how they are withheld from everyone else.
//!
//! A per-field sensitivity map is evaluated against the caller's clearance and declared purpose.
//! Sensitive fields that the caller is not entitled to see are withheld from each record: masked,
//! nulled or dropped. The decision is fail-closed: a caller whose clearance is absent or not
//! among the cleared levels (and, where purposes are enforced, whose purpose is absent or not
//! allowed) is not entitled. Fields that are not sensitive always pass through.

use vstd::prelude::*;
use vstd::string::*;

use crate::json::{Json, Object, Tree};
use crate::names;
use crate::names::NameSet;
use crate::text;
use crate::text::{same, split, to_lowercase, trim};

verus! {

/// One governed field from the catalog. `sensitive` says whether it is subject to the
/// entitlement check; `term`, the governing business term, is provenance only.
#[derive(Debug, Clone, PartialEq)]
pub struct GovernedField {
    pub name: String,
    pub sensitive: bool,
    pub term: Option<String>,
}

/// A governed field as a mathematical value.
pub struct FieldView {
    pub name: Seq<char>,
    pub sensitive: bool,
    pub term: Option<Seq<char>>,
}

impl View for GovernedField {
    type V = FieldView;

    open spec fn view(&self) -> FieldView {
        FieldView {
            name: self.name@,
            sensitive: self.sensitive,
            term: text::opt_text(self.term),
        }
    }
}

/// The fields that a list holds.
pub open spec fn field_views(fields: Seq<GovernedField>) -> Seq<FieldView> {
    fields.map_values(|f: GovernedField| f@)
}

/// How a withheld field is rendered.
#[derive(Debug, Clone, Copy, PartialEq, Eq, Structural)]
pub enum MaskMode {
    /// The value is replaced with a mask token.
    Mask,
    /// The value is set to JSON null.
    Nullify,
    /// The field is removed from the record.
    Drop,
}

/// The mode that a word in lower case names. Every word that names no other one names `Mask`.
pub open spec fn mode_named(word: Seq<char>) -> MaskMode {
    if word == "nullify"@ || word == "null"@ {
        MaskMode::Nullify
    } else if word == "drop"@ || word == "remove"@ {
        MaskMode::Drop
    } else {
        MaskMode::Mask
    }
}

impl MaskMode {
    /// The mode that a configured word names, whatever its case and the white space around it.
    pub fn parse(s: &str) -> (r: MaskMode)
        ensures
            r == mode_named(normalized(s@)),
    {
        MaskMode::named(normalize(s).as_str())
    }

    /// The mode that a word in lower case names.
    pub fn named(word: &str) -> (r: MaskMode)
        ensures
            r == mode_named(word@),
    {
        if same(word, "nullify") || same(word, "null") {
            MaskMode::Nullify
        } else if same(word, "drop") || same(word, "remove") {
            MaskMode::Drop
        } else {
            MaskMode::Mask
        }
    }
}

/// The caller's asserted identity for one request.
#[derive(Debug, Clone, PartialEq)]
pub struct CallerContext {
    pub clearance: Option<String>,
    pub purpose: Option<String>,
}

impl Default for CallerContext {
    fn default() -> (r: CallerContext)
        ensures
            r.clearance is None,
            r.purpose is None,
    {
        CallerContext { clearance: None, purpose: None }
    }
}

/// The configured entitlement rule: who may see sensitive fields, and how they are withheld from
/// everyone else.
#[derive(Debug, Clone)]
pub struct EntitlementPolicy {
    pub cleared_levels: NameSet,
    /// Empty: the purpose is not enforced, and clearance alone decides.
    pub allowed_purposes: NameSet,
    pub mask_mode: MaskMode,
    pub mask_token: String,
}

/// A claim in the form in which it is compared: without the white space around it, in lower case.
pub open spec fn normalized(s: Seq<char>) -> Seq<char> {
    text::lowercase(text::trimmed(s))
}

/// A claim in the form in which it is compared.
pub fn normalize(s: &str) -> (r: String)
    ensures
        r@ == normalized(s@),
{
    to_lowercase(trim(s).as_str())
}

/// The normalized claims that a list of raw ones makes, but for those that are empty.
pub open spec fn claim_set(raw: Seq<Seq<char>>) -> Set<Seq<char>> {
    Set::new(
        |t: Seq<char>|
            t.len() > 0 && exists|i: int| 0 <= i < raw.len() && t == normalized(#[trigger] raw[i]),
    )
}

/// The set of normalized claims in a list.
pub fn claims_of(raw: &Vec<String>) -> (r: NameSet)
    ensures
        r@ == claim_set(text::texts(raw@)),
{
    let ghost all = text::texts(raw@);
    let mut out = NameSet::new();
    let mut i: usize = 0;
    assert(out@ =~= claim_set(all.take(0)));
    while i < raw.len()
        invariant
            0 <= i <= raw@.len(),
            all == text::texts(raw@),
            out@ == claim_set(all.take(i as int)),
        decreases raw@.len() - i,
    {
        let claim = normalize(raw[i].as_str());
        let ghost had = out@;
        let ghost word = claim@;
        if !claim.as_str().is_empty() {
            out.insert(claim);
        }
        proof {
            let now = all.take(i + 1);
            assert(now[i as int] == raw@[i as int]@);
            assert forall|t: Seq<char>| out@.contains(t) == claim_set(now).contains(t) by {
                if had.contains(t) {
                    let k = choose|k: int|
                        0 <= k < all.take(i as int).len() && t == normalized(
                            #[trigger] all.take(i as int)[k],
                        );
                    assert(now[k] == all.take(i as int)[k]);
                }
                if claim_set(now).contains(t) {
                    let k = choose|k: int| 0 <= k < now.len() && t == normalized(#[trigger] now[k]);
                    if k < i {
                        assert(all.take(i as int)[k] == now[k]);
                    }
                }
            }
            assert(out@ =~= claim_set(now));
        }
        i += 1;
    }
    assert(all.take(i as int) =~= all);
    out
}

/// The set of claims that a comma-separated configuration value lists.
pub fn parse_csv_set(raw: &str) -> (r: NameSet)
    ensures
        r@ == claim_set(text::pieces(raw@, ',')),
{
    claims_of(&split(raw, ','))
}

/// The claim that a caller makes, in the form in which it is compared; none where it is absent or
/// blank.
pub open spec fn claim(v: Option<Seq<char>>) -> Option<Seq<char>> {
    match v {
        Some(s) => if normalized(s).len() > 0 {
            Some(normalized(s))
        } else {
            None
        },
        None => None,
    }
}

/// The claim that a caller makes, in the form in which it is compared.
pub fn norm(v: &Option<String>) -> (r: Option<String>)
    ensures
        text::opt_text(r) == claim(text::opt_text(*v)),
{
    match v {
        Some(s) => {
            let word = normalize(s.as_str());
            if word.as_str().is_empty() {
                None
            } else {
                Some(word)
            }
        },
        None => None,
    }
}

/// Whether normalized claims entitle a caller to see sensitive fields: the clearance is cleared
/// and, if purposes are enforced, the purpose is allowed.
pub open spec fn admitted(
    clearance: Option<Seq<char>>,
    purpose: Option<Seq<char>>,
    cleared: Set<Seq<char>>,
    allowed: Set<Seq<char>>,
) -> bool {
    &&& clearance is Some && cleared.contains(clearance->0)
    &&& allowed == Set::<Seq<char>>::empty() || (purpose is Some && allowed.contains(purpose->0))
}

/// Whether a caller is entitled to see sensitive fields.
pub open spec fn entitled(caller: CallerContext, policy: EntitlementPolicy) -> bool {
    admitted(
        claim(text::opt_text(caller.clearance)),
        claim(text::opt_text(caller.purpose)),
        policy.cleared_levels@,
        policy.allowed_purposes@,
    )
}

/// Whether normalized claims entitle a caller to see sensitive fields.
pub fn is_admitted(
    clearance: &Option<String>,
    purpose: &Option<String>,
    policy: &EntitlementPolicy,
) -> (r: bool)
    ensures
        r == admitted(
            text::opt_text(*clearance),
            text::opt_text(*purpose),
            policy.cleared_levels@,
            policy.allowed_purposes@,
        ),
{
    let cleared = match clearance {
        Some(c) => policy.cleared_levels.contains(c.as_str()),
        None => false,
    };
    if !cleared {
        return false;
    }
    if policy.allowed_purposes.is_empty() {
        return true;
    }
    match purpose {
        Some(p) => policy.allowed_purposes.contains(p.as_str()),
        None => false,
    }
}

/// Whether a caller is entitled to see sensitive fields. Absent and blank claims never satisfy
/// the check.
pub fn is_entitled(caller: &CallerContext, policy: &EntitlementPolicy) -> (r: bool)
    ensures
        r == entitled(*caller, *policy),
{
    is_admitted(&norm(&caller.clearance), &norm(&caller.purpose), policy)
}

/// What is withheld from a caller, and how. An entitled caller is withheld nothing; everyone else
/// every sensitive field.
#[derive(Debug, Clone, PartialEq)]
pub struct Projection {
    pub withhold: NameSet,
    pub mode: MaskMode,
    pub token: String,
    pub entitled: bool,
}

/// The names of the sensitive fields.
pub open spec fn sensitive_names(fields: Seq<FieldView>) -> Set<Seq<char>> {
    Set::new(
        |n: Seq<char>|
            exists|i: int|
                0 <= i < fields.len() && (#[trigger] fields[i]).sensitive && fields[i].name == n,
    )
}

/// The names that are withheld from a caller.
pub open spec fn withheld_names(fields: Seq<FieldView>, entitled: bool) -> Set<Seq<char>> {
    if entitled {
        Set::empty()
    } else {
        sensitive_names(fields)
    }
}

/// The names of the sensitive fields.
pub fn sensitive_set(fields: &[GovernedField]) -> (r: NameSet)
    ensures
        r@ == sensitive_names(field_views(fields@)),
{
    let ghost all = field_views(fields@);
    let mut out = NameSet::new();
    let mut i: usize = 0;
    assert(out@ =~= sensitive_names(all.take(0)));
    while i < fields.len()
        invariant
            0 <= i <= fields@.len(),
            all == field_views(fields@),
            out@ == sensitive_names(all.take(i as int)),
        decreases fields@.len() - i,
    {
        let ghost had = out@;
        if fields[i].sensitive {
            out.insert(fields[i].name.clone());
        }
        proof {
            let was = all.take(i as int);
            let now = all.take(i + 1);
            assert(now[i as int] == fields@[i as int]@);
            assert forall|n: Seq<char>| out@.contains(n) == sensitive_names(now).contains(n) by {
                if had.contains(n) {
                    let k = choose|k: int|
                        0 <= k < was.len() && (#[trigger] was[k]).sensitive && was[k].name == n;
                    assert(now[k] == was[k]);
                }
                if sensitive_names(now).contains(n) {
                    let k = choose|k: int|
                        0 <= k < now.len() && (#[trigger] now[k]).sensitive && now[k].name == n;
                    if k < i {
                        assert(was[k] == now[k]);
                    }
                }
            }
            assert(out@ =~= sensitive_names(now));
        }
        i += 1;
    }
    assert(all.take(i as int) =~= all);
    out
}

/// What is withheld from a caller, and how.
pub fn plan(
    fields: &[GovernedField],
    caller: &CallerContext,
    policy: &EntitlementPolicy,
) -> (r: Projection)
    ensures
        r.entitled == entitled(*caller, *policy),
        r.withhold@ == withheld_names(field_views(fields@), r.entitled),
        r.mode == policy.mask_mode,
        r.token@ == policy.mask_token@,
{
    let entitled = is_entitled(caller, policy);
    let withhold = if entitled {
        NameSet::new()
    } else {
        sensitive_set(fields)
    };
    Projection {
        withhold,
        mode: policy.mask_mode,
        token: policy.mask_token.clone(),
        entitled,
    }
}

/// What stands in place of a withheld value that is not dropped.
pub open spec fn stand_in(mode: MaskMode, token: Seq<char>) -> Tree {
    match mode {
        MaskMode::Mask => Tree::String(token),
        MaskMode::Nullify => Tree::Null,
        MaskMode::Drop => Tree::Null,
    }
}

/// A record with the fields in `withhold` withheld.
pub open spec fn withheld_from(
    record: Map<Seq<char>, Tree>,
    withhold: Set<Seq<char>>,
    mode: MaskMode,
    token: Seq<char>,
) -> Map<Seq<char>, Tree> {
    Map::new(
        |k: Seq<char>| record.contains_key(k) && !(mode == MaskMode::Drop && withhold.contains(k)),
        |k: Seq<char>|
            if withhold.contains(k) {
                stand_in(mode, token)
            } else {
                record[k]
            },
    )
}

/// A record as a projection leaves it.
pub open spec fn projected(record: Map<Seq<char>, Tree>, p: Projection) -> Map<Seq<char>, Tree> {
    withheld_from(record, p.withhold@, p.mode, p.token@)
}

/// The names in a row that a record has.
pub open spec fn names_present(
    row: Seq<Seq<char>>,
    record: Map<Seq<char>, Tree>,
) -> Seq<Seq<char>> {
    row.filter(|n: Seq<char>| record.contains_key(n))
}

/// Applies a projection to one record in place. Returns the names of the fields that were
/// withheld, in ascending order: those of the projection that the record has.
pub fn apply(record: &mut Object, projection: &Projection) -> (applied: Vec<String>)
    ensures
        final(record)@ == projected(old(record)@, *projection),
        text::texts(applied@) == names_present(projection.withhold.names(), old(record)@),
        names::ascending(text::texts(applied@)),
{
    let ghost was = record@;
    let ghost row = projection.withhold.names();
    let mut applied: Vec<String> = Vec::new();
    let n = projection.withhold.len();
    let mut i: usize = 0;
    assert(row.take(0).to_set() =~= Set::empty());
    assert(record@ =~= withheld_from(was, row.take(0).to_set(), projection.mode, projection.token@));
    assert(text::texts(applied@) =~= names_present(row.take(0), was)) by {
        reveal(Seq::filter);
    }
    while i < n
        invariant
            0 <= i <= n,
            n == row.len(),
            names::ascending(row),
            row == projection.withhold.names(),
            record@ == withheld_from(
                was,
                row.take(i as int).to_set(),
                projection.mode,
                projection.token@,
            ),
            text::texts(applied@) == names_present(row.take(i as int), was),
        decreases n - i,
    {
        let name = projection.withhold.get(i);
        let ghost done = row.take(i as int);
        let ghost next = row.take(i + 1);
        proof {
            reveal(Seq::filter);
            names::lemma_ascending_distinct(row);
            assert(next.drop_last() =~= done);
            assert(next.last() == name@);
            assert(!done.contains(name@));
            assert forall|t: Seq<char>| next.to_set().contains(t) == (done.to_set().contains(t) || t
                == name@) by {
                if done.contains(t) {
                    let k = choose|k: int| 0 <= k < done.len() && done[k] == t;
                    assert(next[k] == t);
                }
                assert(next[i as int] == name@);
            }
        }
        if record.contains_key(name.as_str()) {
            match projection.mode {
                MaskMode::Mask => {
                    record.insert(name.clone(), Json::String(projection.token.clone()));
                },
                MaskMode::Nullify => {
                    record.insert(name.clone(), Json::Null);
                },
                MaskMode::Drop => {
                    record.remove(name.as_str());
                },
            }
            let ghost had = text::texts(applied@);
            applied.push(name.clone());
            assert(text::texts(applied@) =~= had.push(name@));
        }
        assert(record@ =~= withheld_from(was, next.to_set(), projection.mode, projection.token@));
        i += 1;
    }
    assert(row.take(n as int) =~= row);
    proof {
        names::lemma_filter_ascending(row, |n: Seq<char>| was.contains_key(n));
    }
    applied
}

} // verus!
