//! The voters that the service asks, and changes to their list.
use vstd::prelude::*;
use crate::http::Status;
use crate::text;

verus! {

/// How a voter's answer shows that it blocks.
#[derive(Debug)]
pub enum BlockSignature {
    /// By a null address, or by saying that there is no such name.
    NullIpOrNxdomain,
    /// In another way, by its name.
    Other(String),
}

impl Clone for BlockSignature {
    fn clone(&self) -> (copy: Self)
        ensures
            copy == *self,
    {
        match self {
            BlockSignature::NullIpOrNxdomain => BlockSignature::NullIpOrNxdomain,
            BlockSignature::Other(name) => BlockSignature::Other(name.clone()),
        }
    }
}

/// What is known of a voter.
#[derive(Debug)]
pub struct ProviderSpec {
    /// Its identifier.
    pub id: String,
    /// Its name for people.
    pub display_name: String,
    /// Where it is asked.
    pub doh_url: String,
    /// What it filters.
    pub category: String,
    /// How its answer shows that it blocks.
    pub block_signature: BlockSignature,
}

impl Clone for ProviderSpec {
    fn clone(&self) -> (copy: Self)
        ensures
            copy == *self,
    {
        ProviderSpec {
            id: self.id.clone(),
            display_name: self.display_name.clone(),
            doh_url: self.doh_url.clone(),
            category: self.category.clone(),
            block_signature: self.block_signature.clone(),
        }
    }
}

/// A voter of the list.
#[derive(Debug)]
pub struct ProviderEntry {
    /// The voter.
    pub spec: ProviderSpec,
    /// Whether it is asked.
    pub enabled: bool,
}

impl Clone for ProviderEntry {
    fn clone(&self) -> (copy: Self)
        ensures
            copy == *self,
    {
        ProviderEntry { spec: self.spec.clone(), enabled: self.enabled }
    }
}

/// Whether one of the presets has this identifier.
pub open spec fn is_preset(presets: Seq<ProviderSpec>, id: Seq<char>) -> bool {
    exists|i: int| 0 <= i < presets.len() && (#[trigger] presets[i]).id@ == id
}

/// The first preset with this identifier, if there is one.
pub open spec fn preset(presets: Seq<ProviderSpec>, id: Seq<char>) -> Option<ProviderSpec>
    decreases presets.len(),
{
    if presets.len() == 0 {
        None
    } else if presets[0].id@ == id {
        Some(presets[0])
    } else {
        preset(presets.skip(1), id)
    }
}

/// Whether a voter of the list has this identifier.
pub open spec fn configured(entries: Seq<ProviderEntry>, id: Seq<char>) -> bool {
    exists|i: int| 0 <= i < entries.len() && (#[trigger] entries[i]).spec.id@ == id
}

/// Whether no two voters of a list share an identifier.
pub open spec fn distinct_ids(entries: Seq<ProviderEntry>) -> bool {
    forall|i: int, j: int|
        0 <= i < j < entries.len() ==> (#[trigger] entries[i]).spec.id@ != (
        #[trigger] entries[j]).spec.id@
}

/// Whether a voter is asked.
pub open spec fn asked() -> spec_fn(ProviderEntry) -> bool {
    |entry: ProviderEntry| entry.enabled
}

/// The number of voters that are asked.
pub open spec fn enabled_count(entries: Seq<ProviderEntry>) -> nat {
    entries.filter(asked()).len()
}

/// A copy of a list of voters.
pub fn copy_entries(entries: &[ProviderEntry]) -> (copy: Vec<ProviderEntry>)
    ensures
        copy@ == entries@,
{
    let mut copy: Vec<ProviderEntry> = Vec::new();
    let mut i: usize = 0;
    while i < entries.len()
        invariant
            i <= entries@.len(),
            copy@ == entries@.take(i as int),
        decreases entries@.len() - i,
    {
        copy.push(entries[i].clone());
        assert(entries@.take(i + 1) =~= entries@.take(i as int).push(entries@[i as int]));
        i = i + 1;
    }
    assert(entries@.take(i as int) =~= entries@);
    copy
}

/// The first preset with this identifier, if there is one.
pub fn builtin_preset(presets: &[ProviderSpec], id: &str) -> (found: Option<ProviderSpec>)
    ensures
        found == preset(presets@, id@),
        found is Some <==> is_preset(presets@, id@),
        found matches Some(spec) ==> spec.id@ == id@,
{
    let mut i: usize = 0;
    assert(presets@.skip(0) =~= presets@);
    while i < presets.len()
        invariant
            i <= presets@.len(),
            preset(presets@, id@) == preset(presets@.skip(i as int), id@),
            forall|j: int| 0 <= j < i ==> (#[trigger] presets@[j]).id@ != id@,
        decreases presets@.len() - i,
    {
        proof {
            assert(presets@.skip(i as int)[0] == presets@[i as int]);
            assert(presets@.skip(i as int).skip(1) =~= presets@.skip(i + 1));
        }
        if text::same_text(presets[i].id.as_str(), id) {
            return Some(presets[i].clone());
        }
        i = i + 1;
    }
    None
}

/// Whether a voter of the list has this identifier.
pub fn is_configured(entries: &[ProviderEntry], id: &str) -> (yes: bool)
    ensures
        yes == configured(entries@, id@),
{
    let mut i: usize = 0;
    while i < entries.len()
        invariant
            i <= entries@.len(),
            forall|j: int| 0 <= j < i ==> (#[trigger] entries@[j]).spec.id@ != id@,
        decreases entries@.len() - i,
    {
        if text::same_text(entries[i].spec.id.as_str(), id) {
            return true;
        }
        i = i + 1;
    }
    false
}

/// The number of voters that are asked.
pub fn count_enabled(entries: &[ProviderEntry]) -> (count: usize)
    ensures
        count == enabled_count(entries@),
        count <= entries@.len(),
{
    let mut count: usize = 0;
    let mut i: usize = 0;
    proof {
        reveal(Seq::filter);
    }
    while i < entries.len()
        invariant
            i <= entries@.len(),
            count <= i,
            count == enabled_count(entries@.take(i as int)),
        decreases entries@.len() - i,
    {
        proof {
            assert(entries@.take(i + 1) =~= entries@.take(i as int).push(entries@[i as int]));
            entries@.take(i as int).lemma_filter_push(entries@[i as int], asked());
        }
        if entries[i].enabled {
            count = count + 1;
        }
        i = i + 1;
    }
    assert(entries@.take(i as int) =~= entries@);
    count
}

impl ProviderEntry {
    /// The voters of a new installation: the presets that are asked by
    /// default, as far as there are presets for them.
    pub fn default_active_set(presets: &[ProviderSpec]) -> (entries: Vec<ProviderEntry>)
        ensures
            entries@ == default_set(presets@),
    {
        let mut entries: Vec<ProviderEntry> = Vec::new();
        match builtin_preset(presets, "quad9") {
            Some(spec) => entries.push(ProviderEntry { spec, enabled: true }),
            None => {},
        }
        match builtin_preset(presets, "adguard") {
            Some(spec) => entries.push(ProviderEntry { spec, enabled: true }),
            None => {},
        }
        assert(entries@ =~= default_set(presets@));
        entries
    }
}

/// One preset as a voter that is asked, or nothing where there is no such
/// preset.
pub open spec fn active_preset(presets: Seq<ProviderSpec>, id: Seq<char>) -> Seq<ProviderEntry> {
    match preset(presets, id) {
        Some(spec) => seq![ProviderEntry { spec, enabled: true }],
        None => Seq::empty(),
    }
}

/// The voters of a new installation.
pub open spec fn default_set(presets: Seq<ProviderSpec>) -> Seq<ProviderEntry> {
    active_preset(presets, "quad9"@) + active_preset(presets, "adguard"@)
}

/// A request to add a voter: by its identifier alone, where there is a preset
/// for it, or with all that is to be known of it.
#[derive(Debug)]
pub struct ProviderAddRequest {
    /// The identifier.
    pub id: String,
    /// Where it is asked.
    pub url: Option<String>,
    /// Its name for people.
    pub display_name: Option<String>,
    /// What it filters.
    pub category: Option<String>,
    /// How its answer shows that it blocks.
    pub block_signature: Option<BlockSignature>,
}

/// What is known of the voter that a request describes by itself, if it says
/// enough.
pub open spec fn described(request: ProviderAddRequest) -> Option<ProviderSpec> {
    match (request.url, request.display_name, request.category) {
        (Some(doh_url), Some(display_name), Some(category)) => Some(
            ProviderSpec {
                id: request.id,
                display_name,
                doh_url,
                category,
                block_signature: match request.block_signature {
                    Some(signature) => signature,
                    None => BlockSignature::NullIpOrNxdomain,
                },
            },
        ),
        _ => None,
    }
}

/// The voter that a request names: the preset of its identifier, or what it
/// describes by itself, where the address is one that may be asked.
pub open spec fn requested(
    request: ProviderAddRequest,
    presets: Seq<ProviderSpec>,
    url_is_valid: bool,
) -> Option<ProviderSpec> {
    match preset(presets, request.id@) {
        Some(spec) => Some(spec),
        None => if url_is_valid {
            described(request)
        } else {
            None
        },
    }
}

/// The list with the voter that a request names, unless it is refused.
pub open spec fn added(
    entries: Seq<ProviderEntry>,
    request: ProviderAddRequest,
    presets: Seq<ProviderSpec>,
    id_is_valid: bool,
    url_is_valid: bool,
) -> Option<Seq<ProviderEntry>> {
    match requested(request, presets, url_is_valid) {
        Some(spec) => if id_is_valid && !configured(entries, request.id@) {
            Some(entries.push(ProviderEntry { spec, enabled: true }))
        } else {
            None
        },
        None => None,
    }
}

/// Whether an outcome is the expected list, or a refusal where none is
/// expected.
pub open spec fn lists(
    r: Result<Vec<ProviderEntry>, Status>,
    expected: Option<Seq<ProviderEntry>>,
) -> bool {
    match (r, expected) {
        (Ok(after), Some(wanted)) => after@ == wanted,
        (Err(status), None) => status == Status::BadRequest,
        _ => false,
    }
}

/// Adds a voter at the end of the list and switches it on. Whether the
/// identifier and the address are of the form that is allowed has been found
/// out before; an identifier is never given twice.
pub fn add_provider(
    entries: Vec<ProviderEntry>,
    request: ProviderAddRequest,
    presets: &[ProviderSpec],
    id_is_valid: bool,
    url_is_valid: bool,
) -> (r: Result<Vec<ProviderEntry>, Status>)
    ensures
        lists(r, added(entries@, request, presets@, id_is_valid, url_is_valid)),
{
    if !id_is_valid {
        return Err(Status::BadRequest);
    }
    if is_configured(entries.as_slice(), request.id.as_str()) {
        return Err(Status::BadRequest);
    }
    let spec = match builtin_preset(presets, request.id.as_str()) {
        Some(preset) => preset,
        None => {
            if !url_is_valid {
                return Err(Status::BadRequest);
            }
            match (request.url, request.display_name, request.category) {
                (Some(doh_url), Some(display_name), Some(category)) => ProviderSpec {
                    id: request.id,
                    display_name,
                    doh_url,
                    category,
                    block_signature: match request.block_signature {
                        Some(signature) => signature,
                        None => BlockSignature::NullIpOrNxdomain,
                    },
                },
                _ => {
                    return Err(Status::BadRequest);
                },
            }
        },
    };
    let mut after = entries;
    after.push(ProviderEntry { spec, enabled: true });
    Ok(after)
}

/// Whether a voter has another identifier than this.
pub open spec fn other_id(id: Seq<char>) -> spec_fn(ProviderEntry) -> bool {
    |entry: ProviderEntry| entry.spec.id@ != id
}

/// The list without a voter, unless it is a preset or not in the list.
pub open spec fn removed(
    entries: Seq<ProviderEntry>,
    id: Seq<char>,
    presets: Seq<ProviderSpec>,
) -> Option<Seq<ProviderEntry>> {
    if !is_preset(presets, id) && configured(entries, id) {
        Some(entries.filter(other_id(id)))
    } else {
        None
    }
}

/// Removes a voter from the list. A preset can only be switched off.
pub fn remove_provider(entries: Vec<ProviderEntry>, id: &str, presets: &[ProviderSpec]) -> (r:
    Result<Vec<ProviderEntry>, Status>)
    ensures
        lists(r, removed(entries@, id@, presets@)),
{
    if builtin_preset(presets, id).is_some() {
        return Err(Status::BadRequest);
    }
    if !is_configured(entries.as_slice(), id) {
        return Err(Status::BadRequest);
    }
    let mut after: Vec<ProviderEntry> = Vec::new();
    let mut i: usize = 0;
    proof {
        reveal(Seq::filter);
    }
    while i < entries.len()
        invariant
            i <= entries@.len(),
            after@ == entries@.take(i as int).filter(other_id(id@)),
        decreases entries@.len() - i,
    {
        proof {
            assert(entries@.take(i + 1) =~= entries@.take(i as int).push(entries@[i as int]));
            entries@.take(i as int).lemma_filter_push(entries@[i as int], other_id(id@));
        }
        if !text::same_text(entries[i].spec.id.as_str(), id) {
            after.push(entries[i].clone());
        }
        i = i + 1;
    }
    assert(entries@.take(i as int) =~= entries@);
    Ok(after)
}

/// The list with its first voter of an identifier switched on or off, unless
/// there is none.
pub open spec fn switched(entries: Seq<ProviderEntry>, id: Seq<char>, enabled: bool) -> Option<
    Seq<ProviderEntry>,
>
    decreases entries.len(),
{
    if entries.len() == 0 {
        None
    } else if entries[0].spec.id@ == id {
        Some(entries.update(0, ProviderEntry { spec: entries[0].spec, enabled }))
    } else {
        match switched(entries.skip(1), id, enabled) {
            Some(rest) => Some(seq![entries[0]] + rest),
            None => None,
        }
    }
}

/// Switches a voter of the list on or off.
pub fn set_provider_enabled(entries: Vec<ProviderEntry>, id: &str, enabled: bool) -> (r: Result<
    Vec<ProviderEntry>,
    Status,
>)
    ensures
        lists(r, switched(entries@, id@, enabled)),
{
    let mut i: usize = 0;
    while i < entries.len()
        invariant
            i <= entries@.len(),
            forall|j: int| 0 <= j < i ==> (#[trigger] entries@[j]).spec.id@ != id@,
        decreases entries@.len() - i,
    {
        if text::same_text(entries[i].spec.id.as_str(), id) {
            proof {
                lemma_switched_at(entries@, id@, enabled, i as int);
            }
            let entry = ProviderEntry { spec: entries[i].spec.clone(), enabled };
            let mut after = entries;
            after.set(i, entry);
            return Ok(after);
        }
        i = i + 1;
    }
    proof {
        lemma_not_switched(entries@, id@, enabled);
    }
    Err(Status::BadRequest)
}

proof fn lemma_switched_at(entries: Seq<ProviderEntry>, id: Seq<char>, enabled: bool, i: int)
    requires
        0 <= i < entries.len(),
        entries[i].spec.id@ == id,
        forall|j: int| 0 <= j < i ==> (#[trigger] entries[j]).spec.id@ != id,
    ensures
        switched(entries, id, enabled) == Some(
            entries.update(i, ProviderEntry { spec: entries[i].spec, enabled }),
        ),
    decreases entries.len(),
{
    if i > 0 {
        let rest = entries.skip(1);
        assert forall|j: int| 0 <= j < i - 1 implies (#[trigger] rest[j]).spec.id@ != id by {
            assert(entries[j + 1].spec.id@ != id);
        }
        lemma_switched_at(rest, id, enabled, i - 1);
        assert(entries[0].spec.id@ != id);
        assert(seq![entries[0]] + rest.update(
            i - 1,
            ProviderEntry { spec: entries[i].spec, enabled },
        ) =~= entries.update(i, ProviderEntry { spec: entries[i].spec, enabled }));
    }
}

proof fn lemma_not_switched(entries: Seq<ProviderEntry>, id: Seq<char>, enabled: bool)
    requires
        !configured(entries, id),
    ensures
        switched(entries, id, enabled) is None,
    decreases entries.len(),
{
    if entries.len() > 0 {
        let rest = entries.skip(1);
        assert(entries[0].spec.id@ != id);
        assert(!configured(rest, id)) by {
            if configured(rest, id) {
                let k = choose|k: int| 0 <= k < rest.len() && (#[trigger] rest[k]).spec.id@ == id;
                assert(entries[k + 1].spec.id@ == id);
            }
        }
        lemma_not_switched(rest, id, enabled);
    }
}

/// However voters are added, removed and switched, no two of them ever share
/// an identifier.
pub proof fn law_identifiers_stay_distinct(
    entries: Seq<ProviderEntry>,
    request: ProviderAddRequest,
    presets: Seq<ProviderSpec>,
    id_is_valid: bool,
    url_is_valid: bool,
    id: Seq<char>,
    enabled: bool,
)
    requires
        distinct_ids(entries),
    ensures
        added(entries, request, presets, id_is_valid, url_is_valid) matches Some(after)
            ==> distinct_ids(after),
        removed(entries, id, presets) matches Some(after) ==> distinct_ids(after),
        switched(entries, id, enabled) matches Some(after) ==> distinct_ids(after),
{
    lemma_filter_distinct(entries, id);
    lemma_preset_id(presets, request.id@);
    lemma_switched_ids(entries, id, enabled);
    if switched(entries, id, enabled) is Some {
        let after = switched(entries, id, enabled)->0;
        assert forall|i: int, j: int| 0 <= i < j < after.len() implies (
        #[trigger] after[i]).spec.id@ != (#[trigger] after[j]).spec.id@ by {
            assert(entries[i].spec.id@ != entries[j].spec.id@);
        }
    }
}

proof fn lemma_preset_id(presets: Seq<ProviderSpec>, id: Seq<char>)
    ensures
        preset(presets, id) matches Some(spec) ==> spec.id@ == id,
    decreases presets.len(),
{
    if presets.len() > 0 {
        lemma_preset_id(presets.skip(1), id);
    }
}

proof fn lemma_switched_ids(entries: Seq<ProviderEntry>, id: Seq<char>, enabled: bool)
    ensures
        switched(entries, id, enabled) matches Some(after) ==> after.len() == entries.len()
            && forall|i: int|
            0 <= i < after.len() ==> (#[trigger] after[i]).spec == entries[i].spec,
    decreases entries.len(),
{
    if entries.len() > 0 {
        let rest = entries.skip(1);
        lemma_switched_ids(rest, id, enabled);
        if entries[0].spec.id@ != id && switched(rest, id, enabled) is Some {
            let after = switched(entries, id, enabled)->0;
            assert forall|i: int| 0 <= i < after.len() implies (#[trigger] after[i]).spec
                == entries[i].spec by {
                if i > 0 {
                    assert(after[i] == switched(rest, id, enabled)->0[i - 1]);
                    assert(rest[i - 1] == entries[i]);
                }
            }
        }
    }
}

proof fn lemma_filter_distinct(entries: Seq<ProviderEntry>, id: Seq<char>)
    requires
        distinct_ids(entries),
    ensures
        distinct_ids(entries.filter(other_id(id))),
        forall|i: int|
            0 <= i < entries.filter(other_id(id)).len() ==> configured(
                entries,
                (#[trigger] entries.filter(other_id(id))[i]).spec.id@,
            ),
    decreases entries.len(),
{
    reveal(Seq::filter);
    if entries.len() > 0 {
        let rest = entries.drop_last();
        assert(distinct_ids(rest)) by {
            assert forall|i: int, j: int| 0 <= i < j < rest.len() implies (
            #[trigger] rest[i]).spec.id@ != (#[trigger] rest[j]).spec.id@ by {
                assert(entries[i] == rest[i]);
                assert(entries[j] == rest[j]);
            }
        }
        lemma_filter_distinct(rest, id);
        let kept = rest.filter(other_id(id));
        let all = entries.filter(other_id(id));
        assert forall|i: int| 0 <= i < all.len() implies configured(
            entries,
            (#[trigger] all[i]).spec.id@,
        ) by {
            if i < kept.len() {
                assert(configured(rest, kept[i].spec.id@));
                let k = choose|k: int|
                    0 <= k < rest.len() && (#[trigger] rest[k]).spec.id@ == kept[i].spec.id@;
                assert(entries[k] == rest[k]);
            } else {
                assert(entries[entries.len() - 1] == entries.last());
            }
        }
        assert forall|i: int, j: int| 0 <= i < j < all.len() implies (#[trigger] all[i]).spec.id@
            != (#[trigger] all[j]).spec.id@ by {
            if j < kept.len() {
                assert(kept[i] == all[i]);
                assert(kept[j] == all[j]);
            } else {
                assert(configured(rest, kept[i].spec.id@));
                let k = choose|k: int|
                    0 <= k < rest.len() && (#[trigger] rest[k]).spec.id@ == kept[i].spec.id@;
                assert(entries[k] == rest[k]);
                assert(entries[entries.len() - 1] == all[j]);
            }
        }
    }
}

/// A voter that was added by itself can be removed again, and the list is then
/// as it was.
pub proof fn law_removing_undoes_adding(entries: Seq<ProviderEntry>, added: ProviderEntry)
    requires
        !configured(entries, added.spec.id@),
    ensures
        entries.push(added).filter(other_id(added.spec.id@)) == entries,
{
    entries.lemma_filter_push(added, other_id(added.spec.id@));
    lemma_nothing_removed(entries, added.spec.id@);
}

proof fn lemma_nothing_removed(entries: Seq<ProviderEntry>, id: Seq<char>)
    requires
        !configured(entries, id),
    ensures
        entries.filter(other_id(id)) == entries,
    decreases entries.len(),
{
    reveal(Seq::filter);
    if entries.len() > 0 {
        let rest = entries.drop_last();
        assert(!configured(rest, id)) by {
            if configured(rest, id) {
                let k = choose|k: int| 0 <= k < rest.len() && (#[trigger] rest[k]).spec.id@ == id;
                assert(entries[k].spec.id@ == id);
            }
        }
        lemma_nothing_removed(rest, id);
        assert(entries[entries.len() - 1].spec.id@ != id);
        assert(entries =~= rest.push(entries.last()));
    } else {
        assert(entries.filter(other_id(id)) =~= entries);
    }
}

/// Of the presets with an identifier the first one counts, and there is one if and
/// only if an entry of the list of presets has the identifier.
pub proof fn law_the_first_preset_counts(
    before: Seq<ProviderSpec>,
    found: ProviderSpec,
    after: Seq<ProviderSpec>,
    id: Seq<char>,
)
    requires
        forall|i: int| 0 <= i < before.len() ==> (#[trigger] before[i]).id@ != id,
    ensures
        preset(before, id) is None,
        !is_preset(before, id),
        found.id@ == id ==> preset(before + seq![found] + after, id) == Some(found) && is_preset(
            before + seq![found] + after,
            id,
        ),
        found.id@ != id ==> preset(before + seq![found] + after, id) == preset(after, id),
{
    lemma_presets_passed_over(before, Seq::empty(), id);
    assert(before + Seq::<ProviderSpec>::empty() =~= before);
    let rest = seq![found] + after;
    lemma_presets_passed_over(before, rest, id);
    assert(before + rest =~= before + seq![found] + after);
    assert(rest[0] == found);
    assert(rest.skip(1) =~= after);
    assert((before + seq![found] + after)[before.len() as int] == found);
}

proof fn lemma_presets_passed_over(
    before: Seq<ProviderSpec>,
    after: Seq<ProviderSpec>,
    id: Seq<char>,
)
    requires
        forall|i: int| 0 <= i < before.len() ==> (#[trigger] before[i]).id@ != id,
    ensures
        preset(before + after, id) == preset(after, id),
    decreases before.len(),
{
    if before.len() == 0 {
        assert(before + after =~= after);
    } else {
        let rest = before.skip(1);
        assert forall|i: int| 0 <= i < rest.len() implies (#[trigger] rest[i]).id@ != id by {
            assert(rest[i] == before[i + 1]);
        }
        lemma_presets_passed_over(rest, after, id);
        assert((before + after).skip(1) =~= rest + after);
        assert((before + after)[0] == before[0]);
    }
}

proof fn lemma_preset_at(presets: Seq<ProviderSpec>, id: Seq<char>, at: int)
    requires
        0 <= at < presets.len(),
        presets[at].id@ == id,
        forall|i: int| 0 <= i < at ==> (#[trigger] presets[i]).id@ != id,
    ensures
        preset(presets, id) == Some(presets[at]),
{
    law_the_first_preset_counts(presets.take(at), presets[at], presets.skip(at + 1), id);
    assert(presets =~= presets.take(at) + seq![presets[at]] + presets.skip(at + 1));
}

proof fn lemma_no_preset(presets: Seq<ProviderSpec>, id: Seq<char>)
    requires
        forall|i: int| 0 <= i < presets.len() ==> (#[trigger] presets[i]).id@ != id,
    ensures
        preset(presets, id) is None,
{
    lemma_presets_passed_over(presets, Seq::empty(), id);
    assert(presets + Seq::<ProviderSpec>::empty() =~= presets);
}

/// A new voter comes last and is switched on, and the others stay as they are. It
/// is refused where its identifier is not of the right form, where a voter of the
/// list has it, and where no preset has it and the request lacks the address, the
/// name or the category, or the address may not be asked. A preset is taken as it
/// is, whatever else the request says.
pub proof fn law_who_is_added(
    entries: Seq<ProviderEntry>,
    request: ProviderAddRequest,
    presets: Seq<ProviderSpec>,
    id_is_valid: bool,
    url_is_valid: bool,
)
    ensures
        added(entries, request, presets, id_is_valid, url_is_valid) is Some <==> id_is_valid && (
        forall|i: int| 0 <= i < entries.len() ==> (#[trigger] entries[i]).spec.id@ != request.id@)
            && ((exists|i: int|
            0 <= i < presets.len() && (#[trigger] presets[i]).id@ == request.id@) || (url_is_valid
            && request.url is Some && request.display_name is Some && request.category is Some)),
        added(entries, request, presets, id_is_valid, url_is_valid) matches Some(after) ==> {
            &&& after.len() == entries.len() + 1
            &&& after.drop_last() == entries
            &&& after.last().enabled
            &&& forall|at: int|
                0 <= at < presets.len() && (#[trigger] presets[at]).id@ == request.id@ && (forall|
                    i: int,
                | 0 <= i < at ==> (#[trigger] presets[i]).id@ != request.id@) ==> after.last().spec
                    == presets[at]
            &&& (forall|i: int|
                0 <= i < presets.len() ==> (#[trigger] presets[i]).id@ != request.id@) ==> {
                &&& after.last().spec.id == request.id
                &&& Some(after.last().spec.doh_url) == request.url
                &&& Some(after.last().spec.display_name) == request.display_name
                &&& Some(after.last().spec.category) == request.category
                &&& match request.block_signature {
                    Some(signature) => after.last().spec.block_signature == signature,
                    None => after.last().spec.block_signature is NullIpOrNxdomain,
                }
            }
        },
{
    let id = request.id@;
    if exists|i: int| 0 <= i < presets.len() && (#[trigger] presets[i]).id@ == id {
        lemma_some_preset(presets, id);
    } else {
        lemma_no_preset(presets, id);
    }
    assert forall|at: int|
        0 <= at < presets.len() && (#[trigger] presets[at]).id@ == id && (forall|i: int|
            0 <= i < at ==> (#[trigger] presets[i]).id@ != id) implies preset(presets, id) == Some(
        presets[at],
    ) by {
        lemma_preset_at(presets, id, at);
    }
    if added(entries, request, presets, id_is_valid, url_is_valid) is Some {
        let after = added(entries, request, presets, id_is_valid, url_is_valid)->0;
        assert(after.drop_last() =~= entries);
    }
}

proof fn lemma_some_preset(presets: Seq<ProviderSpec>, id: Seq<char>)
    requires
        exists|i: int| 0 <= i < presets.len() && (#[trigger] presets[i]).id@ == id,
    ensures
        preset(presets, id) is Some,
    decreases presets.len(),
{
    let k = choose|i: int| 0 <= i < presets.len() && (#[trigger] presets[i]).id@ == id;
    if presets[0].id@ != id {
        assert(presets.skip(1)[k - 1].id@ == id);
        lemma_some_preset(presets.skip(1), id);
    }
}

/// A voter is removed if and only if it is in the list and no preset; then every
/// voter with its identifier goes, and the others keep their order.
pub proof fn law_who_is_removed(
    entries: Seq<ProviderEntry>,
    id: Seq<char>,
    presets: Seq<ProviderSpec>,
    stays: spec_fn(ProviderEntry) -> bool,
)
    requires
        forall|entry: ProviderEntry| #[trigger] stays(entry) <==> entry.spec.id@ != id,
    ensures
        removed(entries, id, presets) is Some <==> (exists|i: int|
            0 <= i < entries.len() && (#[trigger] entries[i]).spec.id@ == id) && (forall|i: int|
            0 <= i < presets.len() ==> (#[trigger] presets[i]).id@ != id),
        removed(entries, id, presets) matches Some(after) ==> after == entries.filter(stays),
{
    assert(other_id(id) =~= stays);
}

/// A switch changes the first voter with the identifier, and of it nothing but
/// whether it is asked. It is refused if and only if no voter has the identifier.
pub proof fn law_one_voter_is_switched(
    entries: Seq<ProviderEntry>,
    id: Seq<char>,
    enabled: bool,
    at: int,
)
    requires
        0 <= at <= entries.len(),
        forall|i: int| 0 <= i < at ==> (#[trigger] entries[i]).spec.id@ != id,
        at < entries.len() ==> entries[at].spec.id@ == id,
    ensures
        at == entries.len() ==> switched(entries, id, enabled) is None,
        at < entries.len() ==> (switched(entries, id, enabled) matches Some(after) && after.len()
            == entries.len() && after[at].enabled == enabled && after[at].spec == entries[at].spec
            && forall|i: int|
            0 <= i < entries.len() && i != at ==> #[trigger] after[i] == entries[i]),
{
    if at < entries.len() {
        lemma_switched_at(entries, id, enabled, at);
    } else {
        lemma_not_switched(entries, id, enabled);
    }
}

/// The voters that are asked are as many as the places of the list whose voter is
/// switched on.
pub proof fn law_voters_that_are_asked_are_counted(entries: Seq<ProviderEntry>)
    ensures
        enabled_count(entries) == vstd::set_lib::set_int_range(0, entries.len() as int).filter(
            |i: int| entries[i].enabled,
        ).len(),
    decreases entries.len(),
{
    reveal(Seq::filter);
    let on = vstd::set_lib::set_int_range(0, entries.len() as int).filter(
        |i: int| entries[i].enabled,
    );
    if entries.len() > 0 {
        let rest = entries.drop_last();
        law_voters_that_are_asked_are_counted(rest);
        let fewer = vstd::set_lib::set_int_range(0, rest.len() as int).filter(
            |i: int| rest[i].enabled,
        );
        vstd::set_lib::lemma_int_range(0, rest.len() as int);
        if entries.last().enabled {
            assert(on =~= fewer.insert(entries.len() - 1));
        } else {
            assert(on =~= fewer);
        }
    } else {
        assert(on =~= Set::empty());
    }
}

/// A voter is asked if and only if it is switched on.
pub proof fn law_a_voter_is_asked_where_it_is_switched_on(entry: ProviderEntry)
    ensures
        asked()(entry) <==> entry.enabled,
{
}

/// A list has a voter, or a preset, where some entry of it has the identifier;
/// identifiers are distinct where no two entries share one.
pub proof fn law_voters_are_known_by_their_identifiers(
    entries: Seq<ProviderEntry>,
    presets: Seq<ProviderSpec>,
    id: Seq<char>,
)
    ensures
        configured(entries, id) <==> exists|i: int|
            0 <= i < entries.len() && (#[trigger] entries[i]).spec.id@ == id,
        is_preset(presets, id) <==> exists|i: int|
            0 <= i < presets.len() && (#[trigger] presets[i]).id@ == id,
        distinct_ids(entries) <==> forall|i: int, j: int|
            0 <= i < entries.len() && 0 <= j < entries.len() && i != j ==> (
            #[trigger] entries[i]).spec.id@ != (#[trigger] entries[j]).spec.id@,
{
}

/// An outcome is as expected where both are the same list, or where it is the
/// refusal of a bad request and none is expected.
pub proof fn law_what_a_change_comes_to(
    r: Result<Vec<ProviderEntry>, Status>,
    expected: Option<Seq<ProviderEntry>>,
)
    ensures
        lists(r, expected) <==> (r is Ok <==> expected is Some) && (r is Ok ==> (r->Ok_0)@
            == expected->0) && (r is Err ==> r->Err_0 == Status::BadRequest),
{
}

/// The voters of a new installation are the presets of Quad9 and AdGuard, in that
/// order and switched on; one that there is no preset for is left out.
pub proof fn law_who_is_asked_by_default(presets: Seq<ProviderSpec>, q: int, a: int)
    requires
        0 <= q <= presets.len(),
        0 <= a <= presets.len(),
        forall|i: int| 0 <= i < q ==> (#[trigger] presets[i]).id@ != "quad9"@,
        forall|i: int| 0 <= i < a ==> (#[trigger] presets[i]).id@ != "adguard"@,
        q < presets.len() ==> presets[q].id@ == "quad9"@,
        a < presets.len() ==> presets[a].id@ == "adguard"@,
    ensures
        q < presets.len() && a < presets.len() ==> default_set(presets) == seq![
            ProviderEntry { spec: presets[q], enabled: true },
            ProviderEntry { spec: presets[a], enabled: true },
        ],
        q < presets.len() && a == presets.len() ==> default_set(presets) == seq![
            ProviderEntry { spec: presets[q], enabled: true },
        ],
        q == presets.len() && a < presets.len() ==> default_set(presets) == seq![
            ProviderEntry { spec: presets[a], enabled: true },
        ],
        q == presets.len() && a == presets.len() ==> default_set(presets).len() == 0,
{
    if q < presets.len() {
        lemma_preset_at(presets, "quad9"@, q);
    } else {
        lemma_no_preset(presets, "quad9"@);
    }
    if a < presets.len() {
        lemma_preset_at(presets, "adguard"@, a);
    } else {
        lemma_no_preset(presets, "adguard"@);
    }
    if q < presets.len() && a < presets.len() {
        assert(default_set(presets) =~= seq![
            ProviderEntry { spec: presets[q], enabled: true },
            ProviderEntry { spec: presets[a], enabled: true },
        ]);
    } else if q < presets.len() {
        assert(default_set(presets) =~= seq![ProviderEntry { spec: presets[q], enabled: true }]);
    } else if a < presets.len() {
        assert(default_set(presets) =~= seq![ProviderEntry { spec: presets[a], enabled: true }]);
    }
}

} // verus!
