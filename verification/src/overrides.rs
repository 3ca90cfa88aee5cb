//! The user's own lists: domains that are always allowed or always blocked.
//!
//! A pattern is a domain, or `*.` and a domain for the domain with all below
//! it. The allowlist wins over the blocklist.
use vstd::prelude::*;
use vstd::string::*;
use crate::text;
use hickory_proto::ProtoError;

verus! {

/// Which list an entry belongs to.
#[derive(Debug, Clone, Copy, PartialEq, Eq, Structural)]
pub enum ListKind {
    /// Always allowed.
    Allowlist,
    /// Always blocked.
    Blocklist,
}

/// One entry of a list, as it is compared.
#[verifier::ext_equal]
pub struct OverrideRule {
    /// The canonical spelling of the domain.
    pub domain: Seq<char>,
    /// Whether the entry covers the names below the domain too.
    pub is_wildcard: bool,
    /// The list it belongs to.
    pub list: ListKind,
}

/// One entry of a list.
#[derive(Debug, PartialEq, Eq)]
pub struct OverrideEntry {
    /// The canonical spelling of the domain.
    pub domain: String,
    /// Whether the entry covers the names below the domain too.
    pub is_wildcard: bool,
    /// The list it belongs to.
    pub list: ListKind,
}

impl View for OverrideEntry {
    type V = OverrideRule;

    open spec fn view(&self) -> OverrideRule {
        OverrideRule { domain: self.domain@, is_wildcard: self.is_wildcard, list: self.list }
    }
}

impl Clone for OverrideEntry {
    fn clone(&self) -> (copy: Self)
        ensures
            copy == *self,
    {
        OverrideEntry {
            domain: self.domain.clone(),
            is_wildcard: self.is_wildcard,
            list: self.list,
        }
    }
}

/// Why a pattern is not accepted. Says nothing of the pattern itself, so that
/// a log of it names no domain.
#[derive(Debug, Clone, Copy, PartialEq, Eq, Structural)]
pub enum InvalidReason {
    /// A `*` other than a single leading `*.`.
    UnexpectedWildcard,
    /// The pattern comes down to the empty name.
    EmptyDomain,
    /// The domain is not a syntactically valid name.
    InvalidDomain,
}

/// A pattern that was not accepted, with its list and the reason.
pub struct InvalidEntry {
    /// The pattern as it was written.
    pub raw: String,
    /// The list it was written in.
    pub list: ListKind,
    /// Why it was not accepted.
    pub reason: InvalidReason,
}

/// What is known of a pattern that was not accepted.
#[verifier::ext_equal]
pub struct InvalidRule {
    /// The pattern as it was written.
    pub raw: Seq<char>,
    /// The list it was written in.
    pub list: ListKind,
    /// Why it was not accepted.
    pub reason: InvalidReason,
}

impl View for InvalidEntry {
    type V = InvalidRule;

    open spec fn view(&self) -> InvalidRule {
        InvalidRule { raw: self.raw@, list: self.list, reason: self.reason }
    }
}

impl Clone for InvalidEntry {
    fn clone(&self) -> (copy: Self)
        ensures
            copy == *self,
    {
        InvalidEntry { raw: self.raw.clone(), list: self.list, reason: self.reason }
    }
}

/// Why the lists could not be loaded.
#[derive(Debug, Clone, Copy, PartialEq, Eq, Structural)]
pub enum OverrideError {
    /// The file is there and could not be read.
    Io,
    /// The file does not hold the two lists.
    Parse,
}

/// What reading the file of the lists came to.
pub enum OverridesFile {
    /// There is no such file.
    Missing,
    /// The file could not be read.
    Unreadable,
    /// The file was read and does not hold the two lists.
    Malformed,
    /// The patterns of the two lists.
    Lists {
        /// The patterns that are allowed.
        allowlist: Vec<String>,
        /// The patterns that are blocked.
        blocklist: Vec<String>,
    },
}

/// Both lists, in the order in which their entries were added.
#[derive(Debug)]
pub struct OverrideLists {
    entries: Vec<OverrideEntry>,
}

/// The rules that entries stand for.
pub open spec fn rules_of(entries: Seq<OverrideEntry>) -> Seq<OverrideRule> {
    entries.map_values(|e: OverrideEntry| e@)
}

/// The rules that references to entries stand for.
pub open spec fn rules_of_refs(entries: Seq<&OverrideEntry>) -> Seq<OverrideRule> {
    entries.map_values(|e: &OverrideEntry| e@)
}

/// What is known of rejected patterns.
pub open spec fn rejected(entries: Seq<InvalidEntry>) -> Seq<InvalidRule> {
    entries.map_values(|e: InvalidEntry| e@)
}

impl View for OverrideLists {
    type V = Seq<OverrideRule>;

    closed spec fn view(&self) -> Seq<OverrideRule> {
        rules_of(self.entries@)
    }
}

/// Whether a pattern covers the names below its domain.
pub open spec fn wildcard(raw: Seq<char>) -> bool {
    raw.len() >= 2 && raw[0] == '*' && raw[1] == '.'
}

/// The domain of a pattern as it is written.
pub open spec fn pattern_body(raw: Seq<char>) -> Seq<char> {
    if wildcard(raw) {
        raw.skip(2)
    } else {
        raw
    }
}

/// What a pattern comes down to, given the canonical spelling of its domain.
pub open spec fn pattern_with(raw: Seq<char>, name: Option<Seq<char>>) -> Result<
    (Seq<char>, bool),
    InvalidReason,
> {
    if pattern_body(raw).contains('*') {
        Err(InvalidReason::UnexpectedWildcard)
    } else {
        match name {
            None => Err(InvalidReason::InvalidDomain),
            Some(domain) => if domain.len() == 0 {
                Err(InvalidReason::EmptyDomain)
            } else {
                Ok((domain, wildcard(raw)))
            },
        }
    }
}

/// What a pattern comes down to.
pub open spec fn pattern(raw: Seq<char>) -> Result<(Seq<char>, bool), InvalidReason> {
    pattern_with(raw, crate::normalized(pattern_body(raw)))
}

/// Whether `query`, in its canonical spelling, falls under a rule: it is the
/// rule's domain or, for a wildcard, a name below it.
pub open spec fn matches_rule(query: Seq<char>, rule: OverrideRule) -> bool {
    query == rule.domain || (rule.is_wildcard && (seq!['.'] + rule.domain).is_suffix_of(query))
}

/// Whether `query` falls under a rule of `list`.
pub open spec fn listed(rules: Seq<OverrideRule>, list: ListKind, query: Seq<char>) -> bool {
    exists|i: int|
        0 <= i < rules.len() && (#[trigger] rules[i]).list == list && matches_rule(query, rules[i])
}

/// What the lists say of `query`, in its canonical spelling.
pub open spec fn verdict(rules: Seq<OverrideRule>, query: Seq<char>) -> Option<ListKind> {
    if listed(rules, ListKind::Allowlist, query) {
        Some(ListKind::Allowlist)
    } else if listed(rules, ListKind::Blocklist, query) {
        Some(ListKind::Blocklist)
    } else {
        None
    }
}

/// The rules on the allowlist whose domain is on the blocklist too.
pub open spec fn contested(rules: Seq<OverrideRule>) -> spec_fn(OverrideRule) -> bool {
    |rule: OverrideRule|
        rule.list == ListKind::Allowlist && exists|i: int|
            0 <= i < rules.len() && (#[trigger] rules[i]).list == ListKind::Blocklist
                && rules[i].domain == rule.domain
}

/// The domains that both lists hold, in the order of the allowlist.
pub open spec fn conflicting(rules: Seq<OverrideRule>) -> Seq<Seq<char>> {
    rules.filter(contested(rules)).map_values(|rule: OverrideRule| rule.domain)
}

/// The rules that `rules` does not hold.
pub open spec fn not_in(rules: Seq<OverrideRule>) -> spec_fn(OverrideRule) -> bool {
    |rule: OverrideRule| !rules.contains(rule)
}

/// The rules that only one of two versions of the lists holds.
pub open spec fn changed(before: Seq<OverrideRule>, after: Seq<OverrideRule>) -> Seq<
    OverrideRule,
> {
    before.filter(not_in(after)) + after.filter(not_in(before))
}

/// The rules that the accepted ones of `patterns` stand for.
pub open spec fn accepted(patterns: Seq<Seq<char>>, list: ListKind) -> Seq<OverrideRule>
    decreases patterns.len(),
{
    if patterns.len() == 0 {
        Seq::empty()
    } else {
        match pattern(patterns.last()) {
            Ok((domain, is_wildcard)) => accepted(patterns.drop_last(), list).push(
                OverrideRule { domain, is_wildcard, list },
            ),
            Err(_) => accepted(patterns.drop_last(), list),
        }
    }
}

/// The ones of `patterns` that are not accepted, with the reasons.
pub open spec fn refused(patterns: Seq<Seq<char>>, list: ListKind) -> Seq<InvalidRule>
    decreases patterns.len(),
{
    if patterns.len() == 0 {
        Seq::empty()
    } else {
        match pattern(patterns.last()) {
            Ok(_) => refused(patterns.drop_last(), list),
            Err(reason) => refused(patterns.drop_last(), list).push(
                InvalidRule { raw: patterns.last(), list, reason },
            ),
        }
    }
}

/// The lists with one rule more, unless they hold it.
pub open spec fn with_rule(rules: Seq<OverrideRule>, rule: OverrideRule) -> Seq<OverrideRule> {
    if rules.contains(rule) {
        rules
    } else {
        rules.push(rule)
    }
}

/// Every rule but one.
pub open spec fn other_than(rule: OverrideRule) -> spec_fn(OverrideRule) -> bool {
    |other: OverrideRule| other != rule
}

/// The lists without a rule.
pub open spec fn without_rule(rules: Seq<OverrideRule>, rule: OverrideRule) -> Seq<OverrideRule> {
    rules.filter(other_than(rule))
}

/// Tells whether a pattern is a wildcard, and gives its domain as written.
fn split_pattern(raw: &str) -> (r: (Vec<char>, bool))
    ensures
        r.0@ == pattern_body(raw@),
        r.1 == wildcard(raw@),
{
    let chars = text::chars_of(raw);
    if chars.len() >= 2 && chars[0] == '*' && chars[1] == '.' {
        assert(chars@.subrange(2, chars@.len() as int) =~= chars@.skip(2));
        let body = text::copy_chars(vstd::slice::slice_subrange(&chars, 2, chars.len()));
        (body, true)
    } else {
        (chars, false)
    }
}

/// What a pattern comes down to, given the canonical spelling of its domain.
pub fn pattern_from(raw: &str, name: Option<String>) -> (r: Result<(String, bool), InvalidReason>)
    ensures
        match r {
            Ok((domain, is_wildcard)) => pattern_with(
                raw@,
                match name {
                    Some(n) => Some(n@),
                    None => None,
                },
            ) == Ok::<(Seq<char>, bool), InvalidReason>((domain@, is_wildcard)),
            Err(reason) => pattern_with(
                raw@,
                match name {
                    Some(n) => Some(n@),
                    None => None,
                },
            ) == Err::<(Seq<char>, bool), InvalidReason>(reason),
        },
{
    let (body, is_wildcard) = split_pattern(raw);
    if text::has_char(&body, '*') {
        return Err(InvalidReason::UnexpectedWildcard);
    }
    match name {
        None => Err(InvalidReason::InvalidDomain),
        Some(domain) => if domain.as_str().is_empty() {
            Err(InvalidReason::EmptyDomain)
        } else {
            Ok((domain, is_wildcard))
        },
    }
}

/// The canonical domain of a pattern and whether it is a wildcard.
pub fn parse_pattern(raw: &str) -> (r: Result<(String, bool), InvalidReason>)
    ensures
        match r {
            Ok((domain, is_wildcard)) => pattern(raw@) == Ok::<(Seq<char>, bool), InvalidReason>(
                (domain@, is_wildcard),
            ),
            Err(reason) => pattern(raw@) == Err::<(Seq<char>, bool), InvalidReason>(reason),
        },
{
    let (body, _) = split_pattern(raw);
    if text::has_char(&body, '*') {
        return Err(InvalidReason::UnexpectedWildcard);
    }
    let name = match crate::normalize_domain(text::string_of(&body).as_str()) {
        Ok(domain) => Some(domain),
        Err(_) => None,
    };
    pattern_from(raw, name)
}

/// Whether `query`, in its canonical spelling, falls under an entry.
pub fn rule_matches(query: &str, entry: &OverrideEntry) -> (matched: bool)
    ensures
        matched == matches_rule(query@, entry@),
{
    if text::same_text(query, entry.domain.as_str()) {
        return true;
    }
    if !entry.is_wildcard {
        return false;
    }
    let mut suffix: Vec<char> = vec!['.'];
    let mut domain = text::chars_of(entry.domain.as_str());
    suffix.append(&mut domain);
    assert(suffix@ =~= seq!['.'] + entry.domain@);
    text::ends_with(&text::chars_of(query), &suffix)
}

/// Whether two entries stand for the same rule.
fn same_entry(a: &OverrideEntry, b: &OverrideEntry) -> (same: bool)
    ensures
        same == (a@ == b@),
{
    a.is_wildcard == b.is_wildcard && a.list == b.list && text::same_text(
        a.domain.as_str(),
        b.domain.as_str(),
    )
}

/// Whether one of `entries` stands for the same rule as `entry`.
fn has_entry(entries: &Vec<OverrideEntry>, entry: &OverrideEntry) -> (found: bool)
    ensures
        found == rules_of(entries@).contains(entry@),
{
    let mut i: usize = 0;
    while i < entries.len()
        invariant
            i <= entries@.len(),
            forall|j: int| 0 <= j < i ==> (#[trigger] entries@[j])@ != entry@,
        decreases entries@.len() - i,
    {
        if same_entry(&entries[i], entry) {
            assert(rules_of(entries@)[i as int] == entry@);
            return true;
        }
        i = i + 1;
    }
    proof {
        if rules_of(entries@).contains(entry@) {
            let j = choose|j: int|
                0 <= j < rules_of(entries@).len() && rules_of(entries@)[j] == entry@;
            assert(entries@[j]@ == entry@);
        }
    }
    false
}

impl OverrideLists {
    /// Lists without entries.
    pub fn empty() -> (lists: Self)
        ensures
            lists@ == Seq::<OverrideRule>::empty(),
    {
        let lists = OverrideLists { entries: Vec::new() };
        assert(lists@ =~= Seq::<OverrideRule>::empty());
        lists
    }

    /// Lists of the given entries.
    pub fn from_entries(entries: Vec<OverrideEntry>) -> (lists: Self)
        ensures
            lists@ == rules_of(entries@),
    {
        OverrideLists { entries }
    }

    /// The entries, in the order in which they were added.
    pub fn entries(&self) -> (entries: &Vec<OverrideEntry>)
        ensures
            rules_of(entries@) == self@,
    {
        &self.entries
    }

    /// Whether `query`, in its canonical spelling, falls under an entry of
    /// `list`.
    fn has_match(&self, list: ListKind, query: &str) -> (found: bool)
        ensures
            found == listed(self@, list, query@),
    {
        let mut i: usize = 0;
        while i < self.entries.len()
            invariant
                i <= self.entries@.len(),
                forall|j: int|
                    0 <= j < i ==> !((#[trigger] self@[j]).list == list && matches_rule(
                        query@,
                        self@[j],
                    )),
            decreases self.entries@.len() - i,
        {
            if self.entries[i].list == list && rule_matches(query, &self.entries[i]) {
                assert(self@[i as int].list == list && matches_rule(query@, self@[i as int]));
                return true;
            }
            i = i + 1;
        }
        false
    }

    /// What the lists say of a domain in its canonical spelling: the allowlist
    /// is asked first.
    pub fn decision_for(&self, query: &str) -> (decision: Option<ListKind>)
        ensures
            decision == verdict(self@, query@),
    {
        if self.has_match(ListKind::Allowlist, query) {
            return Some(ListKind::Allowlist);
        }
        if self.has_match(ListKind::Blocklist, query) {
            return Some(ListKind::Blocklist);
        }
        None
    }

    /// What the lists say of a domain, in whatever spelling.
    pub fn decision(&self, domain: &str) -> (r: Result<Option<ListKind>, ProtoError>)
        ensures
            match r {
                Ok(decision) => crate::normalized(domain@) is Some && decision == verdict(
                    self@,
                    crate::normalized(domain@)->0,
                ),
                Err(_) => crate::normalized(domain@) is None,
            },
    {
        match crate::normalize_domain(domain) {
            Ok(query) => Ok(self.decision_for(query.as_str())),
            Err(error) => Err(error),
        }
    }

    /// Whether the blocklist holds an entry of this very domain.
    fn blocks_domain(&self, domain: &str) -> (found: bool)
        ensures
            found == exists|i: int|
                0 <= i < self@.len() && (#[trigger] self@[i]).list == ListKind::Blocklist
                    && self@[i].domain == domain@,
    {
        let mut i: usize = 0;
        while i < self.entries.len()
            invariant
                i <= self.entries@.len(),
                forall|j: int|
                    0 <= j < i ==> !((#[trigger] self@[j]).list == ListKind::Blocklist
                        && self@[j].domain == domain@),
            decreases self.entries@.len() - i,
        {
            if self.entries[i].list == ListKind::Blocklist && text::same_text(
                self.entries[i].domain.as_str(),
                domain,
            ) {
                assert(self@[i as int].list == ListKind::Blocklist);
                return true;
            }
            i = i + 1;
        }
        false
    }

    /// The domains that both lists hold, in the order of the allowlist. Only
    /// entries of the same domain conflict, not those that overlap otherwise.
    pub fn conflicts(&self) -> (domains: Vec<&str>)
        ensures
            domains@.map_values(|d: &str| d@) == conflicting(self@),
    {
        let mut domains: Vec<&str> = Vec::new();
        let mut i: usize = 0;
        let ghost keep = contested(self@);
        let ghost name = |rule: OverrideRule| rule.domain;
        proof {
            reveal(Seq::filter);
            assert(domains@.map_values(|d: &str| d@) =~= self@.take(0).filter(keep).map_values(
                name,
            ));
        }
        while i < self.entries.len()
            invariant
                i <= self.entries@.len(),
                keep == contested(self@),
                name == (|rule: OverrideRule| rule.domain),
                domains@.map_values(|d: &str| d@) == self@.take(i as int).filter(keep).map_values(
                    name,
                ),
            decreases self.entries@.len() - i,
        {
            let entry = &self.entries[i];
            let ghost was = domains@;
            if entry.list == ListKind::Allowlist && self.blocks_domain(entry.domain.as_str()) {
                domains.push(entry.domain.as_str());
            }
            proof {
                let rule = self@[i as int];
                assert(rule == entry@);
                assert(self@.take(i + 1) =~= self@.take(i as int).push(rule));
                self@.take(i as int).lemma_filter_push(rule, keep);
                let kept = self@.take(i as int).filter(keep);
                assert(kept.push(rule).map_values(name) =~= kept.map_values(name).push(
                    rule.domain,
                ));
                if keep(rule) {
                    assert(domains@.map_values(|d: &str| d@) =~= was.map_values(|d: &str| d@).push(
                        rule.domain,
                    ));
                }
            }
            i = i + 1;
        }
        assert(self@.take(i as int) =~= self@);
        domains
    }

    /// Turns what was read of the file into lists. A missing file stands for
    /// empty lists; patterns that are not accepted are handed back and cost
    /// nothing of the rest.
    pub fn load(file: OverridesFile) -> (r: Result<(Self, Vec<InvalidEntry>), OverrideError>)
        ensures
            match file {
                OverridesFile::Missing => r matches Ok((lists, invalid)) && lists@ == Seq::<
                    OverrideRule,
                >::empty() && invalid@ == Seq::<InvalidEntry>::empty(),
                OverridesFile::Unreadable => r matches Err(OverrideError::Io),
                OverridesFile::Malformed => r matches Err(OverrideError::Parse),
                OverridesFile::Lists { allowlist, blocklist } => r matches Ok((lists, invalid))
                    && lists@ == accepted(text::texts(allowlist@), ListKind::Allowlist) + accepted(
                    text::texts(blocklist@),
                    ListKind::Blocklist,
                ) && rejected(invalid@) == refused(text::texts(allowlist@), ListKind::Allowlist)
                    + refused(text::texts(blocklist@), ListKind::Blocklist),
            },
    {
        match file {
            OverridesFile::Missing => Ok((OverrideLists::empty(), Vec::new())),
            OverridesFile::Unreadable => Err(OverrideError::Io),
            OverridesFile::Malformed => Err(OverrideError::Parse),
            OverridesFile::Lists { allowlist, blocklist } => {
                let mut entries: Vec<OverrideEntry> = Vec::new();
                let mut invalid: Vec<InvalidEntry> = Vec::new();
                add_patterns(&mut entries, &mut invalid, &allowlist, ListKind::Allowlist);
                add_patterns(&mut entries, &mut invalid, &blocklist, ListKind::Blocklist);
                proof {
                    assert(rules_of(Seq::<OverrideEntry>::empty()) + accepted(
                        text::texts(allowlist@),
                        ListKind::Allowlist,
                    ) =~= accepted(text::texts(allowlist@), ListKind::Allowlist));
                    assert(rejected(Seq::<InvalidEntry>::empty()) + refused(
                        text::texts(allowlist@),
                        ListKind::Allowlist,
                    ) =~= refused(text::texts(allowlist@), ListKind::Allowlist));
                }
                Ok((OverrideLists { entries }, invalid))
            },
        }
    }

    /// The lists with the entry that a pattern stands for, unless they hold it.
    pub fn with_entry_added(&self, raw: &str, list: ListKind) -> (r: Result<Self, InvalidReason>)
        ensures
            match r {
                Ok(lists) => pattern(raw@) is Ok && lists@ == with_rule(
                    self@,
                    OverrideRule {
                        domain: pattern(raw@)->Ok_0.0,
                        is_wildcard: pattern(raw@)->Ok_0.1,
                        list,
                    },
                ),
                Err(reason) => pattern(raw@) == Err::<(Seq<char>, bool), InvalidReason>(reason),
            },
    {
        match parse_pattern(raw) {
            Ok((domain, is_wildcard)) => Ok(
                self.with_entry(OverrideEntry { domain, is_wildcard, list }),
            ),
            Err(reason) => Err(reason),
        }
    }

    /// The lists with an entry, unless they hold it.
    pub fn with_entry(&self, entry: OverrideEntry) -> (lists: Self)
        ensures
            lists@ == with_rule(self@, entry@),
    {
        let mut entries = copy_entries(&self.entries);
        if !has_entry(&self.entries, &entry) {
            entries.push(entry);
            assert(rules_of(entries@) =~= self@.push(entry@));
        }
        OverrideLists { entries }
    }

    /// The lists without an entry. Nothing happens where they do not hold it.
    pub fn with_entry_removed(&self, domain: &str, is_wildcard: bool, list: ListKind) -> (lists:
        Self)
        ensures
            lists@ == without_rule(self@, OverrideRule { domain: domain@, is_wildcard, list }),
    {
        let ghost rule = OverrideRule { domain: domain@, is_wildcard, list };
        let ghost keep = other_than(rule);
        let mut entries: Vec<OverrideEntry> = Vec::new();
        let mut i: usize = 0;
        proof {
            reveal(Seq::filter);
            assert(rules_of(entries@) =~= self@.take(0).filter(keep));
        }
        while i < self.entries.len()
            invariant
                i <= self.entries@.len(),
                rule == (OverrideRule { domain: domain@, is_wildcard, list }),
                keep == other_than(rule),
                rules_of(entries@) == self@.take(i as int).filter(keep),
            decreases self.entries@.len() - i,
        {
            let entry = &self.entries[i];
            let ghost was = entries@;
            if !(entry.is_wildcard == is_wildcard && entry.list == list && text::same_text(
                entry.domain.as_str(),
                domain,
            )) {
                entries.push(entry.clone());
                assert(rules_of(entries@) =~= rules_of(was).push(entry@));
            }
            proof {
                assert(self@.take(i + 1) =~= self@.take(i as int).push(entry@));
                self@.take(i as int).lemma_filter_push(entry@, keep);
            }
            i = i + 1;
        }
        assert(self@.take(i as int) =~= self@);
        OverrideLists { entries }
    }
}

/// A copy of `entries`.
fn copy_entries(entries: &Vec<OverrideEntry>) -> (copy: Vec<OverrideEntry>)
    ensures
        copy@ == entries@,
{
    let mut copy: Vec<OverrideEntry> = Vec::new();
    let mut i: usize = 0;
    while i < entries.len()
        invariant
            i <= entries@.len(),
            copy@ == entries@.take(i as int),
        decreases entries@.len() - i,
    {
        copy.push(entries[i].clone());
        i = i + 1;
        assert(entries@.take(i as int) =~= entries@.take(i - 1).push(entries@[i - 1]));
    }
    assert(entries@.take(i as int) =~= entries@);
    copy
}

/// Sorts patterns into entries and rejected ones.
fn add_patterns(
    entries: &mut Vec<OverrideEntry>,
    invalid: &mut Vec<InvalidEntry>,
    patterns: &Vec<String>,
    list: ListKind,
)
    ensures
        rules_of(final(entries)@) == rules_of(old(entries)@) + accepted(
            text::texts(patterns@),
            list,
        ),
        rejected(final(invalid)@) == rejected(old(invalid)@) + refused(
            text::texts(patterns@),
            list,
        ),
{
    let mut i: usize = 0;
    let ghost raws = text::texts(patterns@);
    let ghost rules = rules_of(entries@);
    let ghost bad = rejected(invalid@);
    proof {
        assert(raws.take(0) =~= Seq::empty());
        assert(rules + accepted(raws.take(0), list) =~= rules);
        assert(bad + refused(raws.take(0), list) =~= bad);
    }
    while i < patterns.len()
        invariant
            i <= patterns@.len(),
            raws == text::texts(patterns@),
            rules_of(entries@) == rules + accepted(raws.take(i as int), list),
            rejected(invalid@) == bad + refused(raws.take(i as int), list),
        decreases patterns@.len() - i,
    {
        let raw = &patterns[i];
        let ghost was = entries@;
        let ghost was_invalid = invalid@;
        proof {
            assert(raws.take(i + 1).drop_last() =~= raws.take(i as int));
            assert(raws.take(i + 1).last() == raw@);
        }
        match parse_pattern(raw.as_str()) {
            Ok((domain, is_wildcard)) => {
                let entry = OverrideEntry { domain, is_wildcard, list };
                entries.push(entry);
                proof {
                    assert(rules_of(entries@) =~= rules_of(was).push(entry@));
                    assert(rules_of(entries@) =~= rules + accepted(raws.take(i + 1), list));
                }
            },
            Err(reason) => {
                let entry = InvalidEntry { raw: raw.clone(), list, reason };
                invalid.push(entry);
                proof {
                    assert(rejected(invalid@) =~= rejected(was_invalid).push(entry@));
                    assert(rejected(invalid@) =~= bad + refused(raws.take(i + 1), list));
                }
            },
        }
        i = i + 1;
    }
    assert(raws.take(i as int) =~= raws);
}

/// Appends the entries of `from` that `other` does not hold.
fn push_missing<'a>(
    out: &mut Vec<&'a OverrideEntry>,
    from: &'a OverrideLists,
    other: &OverrideLists,
)
    ensures
        rules_of_refs(final(out)@) == rules_of_refs(old(out)@) + from@.filter(not_in(other@)),
{
    let ghost keep = not_in(other@);
    let ghost start = rules_of_refs(out@);
    let mut i: usize = 0;
    proof {
        reveal(Seq::filter);
        assert(start + from@.take(0).filter(keep) =~= start);
    }
    while i < from.entries.len()
        invariant
            i <= from.entries@.len(),
            keep == not_in(other@),
            rules_of_refs(out@) == start + from@.take(i as int).filter(keep),
        decreases from.entries@.len() - i,
    {
        let entry = &from.entries[i];
        let ghost was = out@;
        proof {
            assert(from@.take(i + 1) =~= from@.take(i as int).push(entry@));
            from@.take(i as int).lemma_filter_push(entry@, keep);
        }
        if !has_entry(&other.entries, entry) {
            out.push(entry);
            proof {
                assert(rules_of_refs(out@) =~= rules_of_refs(was).push(entry@));
                assert(rules_of_refs(out@) =~= start + from@.take(i + 1).filter(keep));
            }
        }
        i = i + 1;
    }
    assert(from@.take(i as int) =~= from@);
}

/// The entries that only one of two versions of the lists holds: first those
/// that went, then those that came. An entry that moved between the lists is
/// among both.
pub fn changed_entries<'a>(before: &'a OverrideLists, after: &'a OverrideLists) -> (entries: Vec<
    &'a OverrideEntry,
>)
    ensures
        rules_of_refs(entries@) == changed(before@, after@),
{
    let mut entries: Vec<&OverrideEntry> = Vec::new();
    push_missing(&mut entries, before, after);
    assert(rules_of_refs(Seq::<&OverrideEntry>::empty()) + before@.filter(not_in(after@))
        =~= before@.filter(not_in(after@)));
    push_missing(&mut entries, after, before);
    entries
}

impl ListKind {
    /// The name of the list.
    pub open spec fn spec_name(self) -> Seq<char> {
        match self {
            ListKind::Allowlist => "Allowlist"@,
            ListKind::Blocklist => "Blocklist"@,
        }
    }

    /// The name of the list.
    pub fn name(self) -> (name: &'static str)
        ensures
            name@ == self.spec_name(),
    {
        match self {
            ListKind::Allowlist => "Allowlist",
            ListKind::Blocklist => "Blocklist",
        }
    }
}

impl InvalidReason {
    /// The name of the reason.
    pub open spec fn spec_name(self) -> Seq<char> {
        match self {
            InvalidReason::UnexpectedWildcard => "UnexpectedWildcard"@,
            InvalidReason::EmptyDomain => "EmptyDomain"@,
            InvalidReason::InvalidDomain => "InvalidDomain"@,
        }
    }

    /// The name of the reason.
    pub fn name(self) -> (name: &'static str)
        ensures
            name@ == self.spec_name(),
    {
        match self {
            InvalidReason::UnexpectedWildcard => "UnexpectedWildcard",
            InvalidReason::EmptyDomain => "EmptyDomain",
            InvalidReason::InvalidDomain => "InvalidDomain",
        }
    }

    /// The reason in words. No word of the pattern is among them.
    pub fn message(self) -> (message: &'static str)
        ensures
            message@ == match self {
                InvalidReason::UnexpectedWildcard =>
                    "pattern contains '*' other than a single leading \"*.\""@,
                InvalidReason::EmptyDomain => "pattern normalizes to an empty domain"@,
                InvalidReason::InvalidDomain => "domain is not syntactically valid"@,
            },
    {
        match self {
            InvalidReason::UnexpectedWildcard =>
                "pattern contains '*' other than a single leading \"*.\"",
            InvalidReason::EmptyDomain => "pattern normalizes to an empty domain",
            InvalidReason::InvalidDomain => "domain is not syntactically valid",
        }
    }
}

impl OverrideError {
    /// The error in words. Nothing of the file is among them.
    pub fn message(self) -> (message: &'static str)
        ensures
            message@ == match self {
                OverrideError::Io => "failed to read override list file"@,
                OverrideError::Parse => "failed to parse override list TOML"@,
            },
    {
        match self {
            OverrideError::Io => "failed to read override list file",
            OverrideError::Parse => "failed to parse override list TOML",
        }
    }
}

/// How a rejected pattern is written to a log: its list and the reason, and
/// not the pattern.
pub open spec fn redacted(list: ListKind, reason: InvalidReason) -> Seq<char> {
    "InvalidEntry { raw: \"<redacted>\", list: "@ + list.spec_name() + ", reason: "@
        + reason.spec_name() + " }"@
}

impl InvalidEntry {
    /// What a log may say of the entry. It is the same for every pattern that
    /// was rejected from the same list for the same reason.
    pub fn log_text(&self) -> (line: String)
        ensures
            line@ == redacted(self.list, self.reason),
    {
        let mut line = "InvalidEntry { raw: \"<redacted>\", list: ".to_owned();
        line.append(self.list.name());
        line.append(", reason: ");
        line.append(self.reason.name());
        line.append(" }");
        line
    }
}

/// The allowlist wins: a domain under one of its rules is allowed, whatever
/// else the lists hold.
pub proof fn law_the_allowlist_wins(
    rules: Seq<OverrideRule>,
    more: Seq<OverrideRule>,
    i: int,
    query: Seq<char>,
)
    requires
        0 <= i < rules.len(),
        rules[i].list == ListKind::Allowlist,
        matches_rule(query, rules[i]),
    ensures
        verdict(rules, query) == Some(ListKind::Allowlist),
        verdict(rules + more, query) == Some(ListKind::Allowlist),
{
    assert((rules + more)[i] == rules[i]);
}

/// A wildcard covers its own domain and every name below it.
pub proof fn law_a_wildcard_covers_what_is_below(rule: OverrideRule, label: Seq<char>)
    requires
        rule.is_wildcard,
    ensures
        matches_rule(rule.domain, rule),
        matches_rule(label + seq!['.'] + rule.domain, rule),
{
    let query = label + seq!['.'] + rule.domain;
    let suffix = seq!['.'] + rule.domain;
    assert(query.subrange(query.len() - suffix.len(), query.len() as int) =~= suffix);
}

/// A name that merely ends in the same letters is not covered: what stands
/// before the domain must end in a dot.
pub proof fn law_a_lookalike_is_not_covered(rule: OverrideRule, before: Seq<char>)
    requires
        before.len() > 0,
        before.last() != '.',
    ensures
        !matches_rule(before + rule.domain, rule),
{
    let query = before + rule.domain;
    let suffix = seq!['.'] + rule.domain;
    if suffix.is_suffix_of(query) {
        assert(query.subrange(query.len() - suffix.len(), query.len() as int)[0] == suffix[0]);
        assert(query[before.len() - 1] == before.last());
    }
    assert(query.len() > rule.domain.len());
}

/// An exact rule covers its own domain and nothing else.
pub proof fn law_an_exact_rule_covers_one_name(rule: OverrideRule, query: Seq<char>)
    requires
        !rule.is_wildcard,
    ensures
        matches_rule(query, rule) <==> query == rule.domain,
{
}

/// Nothing has changed between two equal versions of the lists.
pub proof fn law_equal_lists_have_no_changes(rules: Seq<OverrideRule>)
    ensures
        changed(rules, rules) == Seq::<OverrideRule>::empty(),
{
    assert forall|i: int| 0 <= i < rules.len() implies !not_in(rules)(#[trigger] rules[i]) by {
        assert(rules.contains(rules[i]));
    }
    rules.lemma_all_neg_filter_empty(not_in(rules));
    assert(changed(rules, rules) =~= Seq::<OverrideRule>::empty());
}

/// A rule has changed if and only if exactly one of the two versions holds it,
/// whichever of them came first.
pub proof fn law_changes_are_what_one_side_holds(
    before: Seq<OverrideRule>,
    after: Seq<OverrideRule>,
    rule: OverrideRule,
)
    ensures
        changed(before, after).contains(rule) <==> before.contains(rule) != after.contains(rule),
        changed(before, after).contains(rule) <==> changed(after, before).contains(rule),
{
    lemma_changed(before, after, rule);
    lemma_changed(after, before, rule);
}

proof fn lemma_changed(before: Seq<OverrideRule>, after: Seq<OverrideRule>, rule: OverrideRule)
    ensures
        changed(before, after).contains(rule) <==> before.contains(rule) != after.contains(rule),
{
    broadcast use vstd::seq_lib::group_seq_properties;

    let gone = before.filter(not_in(after));
    let came = after.filter(not_in(before));
    lemma_filtered(before, not_in(after), rule);
    lemma_filtered(after, not_in(before), rule);
    assert((gone + came).contains(rule) <==> gone.contains(rule) || came.contains(rule));
}

/// A filtered list holds what the list holds and the filter keeps.
proof fn lemma_filtered(
    rules: Seq<OverrideRule>,
    keep: spec_fn(OverrideRule) -> bool,
    rule: OverrideRule,
)
    ensures
        rules.filter(keep).contains(rule) <==> rules.contains(rule) && keep(rule),
    decreases rules.len(),
{
    reveal(Seq::filter);
    if rules.len() > 0 {
        let rest = rules.drop_last();
        lemma_filtered(rest, keep, rule);
        assert(rules =~= rest.push(rules.last()));
        let kept = rest.filter(keep);
        assert(rules.contains(rule) <==> rest.contains(rule) || rule == rules.last()) by {
            if rules.contains(rule) && rule != rules.last() {
                let i = choose|i: int| 0 <= i < rules.len() && rules[i] == rule;
                assert(rest[i] == rule);
            }
            if rest.contains(rule) {
                let i = choose|i: int| 0 <= i < rest.len() && rest[i] == rule;
                assert(rules[i] == rule);
            }
            if rule == rules.last() {
                assert(rules[rules.len() - 1] == rule);
            }
        }
        assert(kept.push(rules.last()).contains(rule) <==> kept.contains(rule) || rule
            == rules.last()) by {
            let more = kept.push(rules.last());
            if more.contains(rule) && rule != rules.last() {
                let i = choose|i: int| 0 <= i < more.len() && more[i] == rule;
                assert(kept[i] == rule);
            }
            if kept.contains(rule) {
                let i = choose|i: int| 0 <= i < kept.len() && kept[i] == rule;
                assert(more[i] == rule);
            }
            if rule == rules.last() {
                assert(more[kept.len() as int] == rule);
            }
        }
    }
}

/// Adding a rule that the lists hold changes nothing: adding twice is adding
/// once.
pub proof fn law_adding_is_idempotent(rules: Seq<OverrideRule>, rule: OverrideRule)
    ensures
        with_rule(with_rule(rules, rule), rule) == with_rule(rules, rule),
        with_rule(rules, rule).contains(rule),
{
    if !rules.contains(rule) {
        assert(rules.push(rule)[rules.len() as int] == rule);
    }
}

/// Removing a rule that was just added to lists without it gives those lists
/// back, and removing leaves no copy.
pub proof fn law_removing_undoes_adding(rules: Seq<OverrideRule>, rule: OverrideRule)
    ensures
        !without_rule(rules, rule).contains(rule),
        !rules.contains(rule) ==> without_rule(with_rule(rules, rule), rule) == rules,
{
    lemma_filtered(rules, other_than(rule), rule);
    if !rules.contains(rule) {
        lemma_filter_keeps_all(rules, other_than(rule));
        rules.lemma_filter_push(rule, other_than(rule));
    }
}

proof fn lemma_filter_keeps_all(rules: Seq<OverrideRule>, keep: spec_fn(OverrideRule) -> bool)
    requires
        forall|i: int| 0 <= i < rules.len() ==> keep(#[trigger] rules[i]),
    ensures
        rules.filter(keep) == rules,
    decreases rules.len(),
{
    reveal(Seq::filter);
    if rules.len() > 0 {
        let rest = rules.drop_last();
        assert forall|i: int| 0 <= i < rest.len() implies keep(#[trigger] rest[i]) by {
            assert(rest[i] == rules[i]);
        }
        lemma_filter_keeps_all(rest, keep);
        assert(rules =~= rest.push(rules.last()));
    }
}

/// Whether a rule belongs to a list.
pub open spec fn of_list(list: ListKind) -> spec_fn(OverrideRule) -> bool {
    |rule: OverrideRule| rule.list == list
}

/// Whether a pattern that was not accepted was written in a list.
pub open spec fn written_in(list: ListKind) -> spec_fn(InvalidRule) -> bool {
    |rule: InvalidRule| rule.list == list
}

/// The pattern that a rule is written as.
pub open spec fn written() -> spec_fn(OverrideRule) -> Seq<char> {
    |rule: OverrideRule|
        if rule.is_wildcard {
            seq!['*', '.'] + rule.domain
        } else {
            rule.domain
        }
}

/// The pattern that was not accepted, as it was written.
pub open spec fn raw_text() -> spec_fn(InvalidRule) -> Seq<char> {
    |rule: InvalidRule| rule.raw
}

/// The patterns that are written for a list: those of its rules, and behind
/// them those that were not accepted.
pub open spec fn patterns_of(
    rules: Seq<OverrideRule>,
    invalid: Seq<InvalidRule>,
    list: ListKind,
) -> Seq<Seq<char>> {
    rules.filter(of_list(list)).map_values(written()) + invalid.filter(
        written_in(list),
    ).map_values(raw_text())
}

/// The pattern that an entry is written as.
fn pattern_text(entry: &OverrideEntry) -> (pattern: String)
    ensures
        pattern@ == written()(entry@),
{
    if entry.is_wildcard {
        let mut chars: Vec<char> = vec!['*', '.'];
        assert(chars@ =~= seq!['*', '.']);
        let domain = text::chars_of(entry.domain.as_str());
        chars.extend_from_slice(domain.as_slice());
        assert(chars@ =~= seq!['*', '.'] + entry.domain@);
        text::string_of(chars.as_slice())
    } else {
        entry.domain.clone()
    }
}

fn patterns_to_write(lists: &OverrideLists, invalid: &[InvalidEntry], list: ListKind) -> (patterns:
    Vec<String>)
    ensures
        text::texts(patterns@) == patterns_of(lists@, rejected(invalid@), list),
{
    let mut patterns: Vec<String> = Vec::new();
    let ghost rules = lists@;
    let ghost kept = |n: int| rules.take(n).filter(of_list(list)).map_values(written());
    proof {
        reveal(Seq::filter);
        assert(text::texts(patterns@) =~= kept(0));
    }
    let mut i: usize = 0;
    while i < lists.entries.len()
        invariant
            i <= lists.entries@.len(),
            rules == lists@,
            kept == (|n: int| rules.take(n).filter(of_list(list)).map_values(written())),
            text::texts(patterns@) == kept(i as int),
        decreases lists.entries@.len() - i,
    {
        let entry = &lists.entries[i];
        let ghost before = patterns@;
        proof {
            let rule = rules[i as int];
            let some = rules.take(i as int).filter(of_list(list));
            assert(rule == entry@);
            assert(rules.take(i + 1) =~= rules.take(i as int).push(rule));
            rules.take(i as int).lemma_filter_push(rule, of_list(list));
            assert(some.push(rule).map_values(written()) =~= some.map_values(written()).push(
                written()(rule),
            ));
        }
        if entry.list == list {
            patterns.push(pattern_text(entry));
            assert(text::texts(patterns@) =~= text::texts(before).push(written()(entry@)));
        }
        i = i + 1;
    }
    assert(rules.take(i as int) =~= rules);
    let ghost first = kept(i as int);
    let ghost bad = rejected(invalid@);
    let ghost left = |n: int| bad.take(n).filter(written_in(list)).map_values(raw_text());
    proof {
        assert(left(0) =~= Seq::<Seq<char>>::empty());
        assert(text::texts(patterns@) =~= first + left(0));
    }
    let mut k: usize = 0;
    while k < invalid.len()
        invariant
            k <= invalid@.len(),
            bad == rejected(invalid@),
            left == (|n: int| bad.take(n).filter(written_in(list)).map_values(raw_text())),
            text::texts(patterns@) == first + left(k as int),
        decreases invalid@.len() - k,
    {
        let ghost before = patterns@;
        proof {
            let rule = bad[k as int];
            let some = bad.take(k as int).filter(written_in(list));
            assert(bad.take(k + 1) =~= bad.take(k as int).push(rule));
            bad.take(k as int).lemma_filter_push(rule, written_in(list));
            assert(some.push(rule).map_values(raw_text()) =~= some.map_values(raw_text()).push(
                rule.raw,
            ));
        }
        if invalid[k].list == list {
            patterns.push(invalid[k].raw.clone());
            assert(text::texts(patterns@) =~= text::texts(before).push(bad[k as int].raw));
        }
        assert(text::texts(patterns@) =~= first + left(k + 1));
        k = k + 1;
    }
    assert(bad.take(k as int) =~= bad);
    patterns
}

impl OverrideLists {
    /// What is to be written to the file of the lists. What was not accepted
    /// when the file was read is written back as it was, so that a mistyped
    /// entry is never lost by a change of another.
    pub fn save(&self, invalid: &[InvalidEntry]) -> (file: OverridesFile)
        ensures
            file matches OverridesFile::Lists { allowlist, blocklist } && text::texts(allowlist@)
                == patterns_of(self@, rejected(invalid@), ListKind::Allowlist) && text::texts(
                blocklist@,
            ) == patterns_of(self@, rejected(invalid@), ListKind::Blocklist),
    {
        OverridesFile::Lists {
            allowlist: patterns_to_write(self, invalid, ListKind::Allowlist),
            blocklist: patterns_to_write(self, invalid, ListKind::Blocklist),
        }
    }
}

/// Whether a rule is read back from the pattern that it is written as: its
/// domain is its own canonical spelling.
pub open spec fn reads_back(rule: OverrideRule) -> bool {
    pattern(written()(rule)) == Ok::<(Seq<char>, bool), InvalidReason>(
        (rule.domain, rule.is_wildcard),
    )
}

/// What is written for a list is read back as it was: its rules in their
/// order, and what was not accepted still is not, for the same reasons.
pub proof fn law_written_lists_are_read_back(
    rules: Seq<OverrideRule>,
    invalid: Seq<InvalidRule>,
    list: ListKind,
)
    requires
        forall|i: int| 0 <= i < rules.len() ==> reads_back(#[trigger] rules[i]),
        forall|i: int|
            0 <= i < invalid.len() ==> pattern((#[trigger] invalid[i]).raw) == Err::<
                (Seq<char>, bool),
                InvalidReason,
            >(invalid[i].reason),
    ensures
        accepted(patterns_of(rules, invalid, list), list) == rules.filter(of_list(list)),
        refused(patterns_of(rules, invalid, list), list) == invalid.filter(written_in(list)),
{
    let good = rules.filter(of_list(list));
    let bad = invalid.filter(written_in(list));
    lemma_filtered_rules(rules, list);
    lemma_filtered_invalid(invalid, list);
    lemma_read_back(good, list);
    lemma_read_back_more(good, bad, list);
}

proof fn lemma_filtered_rules(rules: Seq<OverrideRule>, list: ListKind)
    requires
        forall|i: int| 0 <= i < rules.len() ==> reads_back(#[trigger] rules[i]),
    ensures
        forall|i: int|
            0 <= i < rules.filter(of_list(list)).len() ==> reads_back(
                #[trigger] rules.filter(of_list(list))[i],
            ) && rules.filter(of_list(list))[i].list == list,
    decreases rules.len(),
{
    reveal(Seq::filter);
    if rules.len() > 0 {
        let rest = rules.drop_last();
        assert forall|i: int| 0 <= i < rest.len() implies reads_back(#[trigger] rest[i]) by {
            assert(rest[i] == rules[i]);
        }
        lemma_filtered_rules(rest, list);
        assert(reads_back(rules[rules.len() - 1]));
    }
}

proof fn lemma_filtered_invalid(invalid: Seq<InvalidRule>, list: ListKind)
    requires
        forall|i: int|
            0 <= i < invalid.len() ==> pattern((#[trigger] invalid[i]).raw) == Err::<
                (Seq<char>, bool),
                InvalidReason,
            >(invalid[i].reason),
    ensures
        forall|i: int|
            0 <= i < invalid.filter(written_in(list)).len() ==> pattern(
                (#[trigger] invalid.filter(written_in(list))[i]).raw,
            ) == Err::<(Seq<char>, bool), InvalidReason>(
                invalid.filter(written_in(list))[i].reason,
            ) && invalid.filter(written_in(list))[i].list == list,
    decreases invalid.len(),
{
    reveal(Seq::filter);
    if invalid.len() > 0 {
        let rest = invalid.drop_last();
        assert forall|i: int| 0 <= i < rest.len() implies pattern((#[trigger] rest[i]).raw)
            == Err::<(Seq<char>, bool), InvalidReason>(rest[i].reason) by {
            assert(rest[i] == invalid[i]);
        }
        lemma_filtered_invalid(rest, list);
        assert(pattern(invalid[invalid.len() - 1].raw) is Err);
    }
}

proof fn lemma_read_back(good: Seq<OverrideRule>, list: ListKind)
    requires
        forall|i: int|
            0 <= i < good.len() ==> reads_back(#[trigger] good[i]) && good[i].list == list,
    ensures
        accepted(good.map_values(written()), list) == good,
        refused(good.map_values(written()), list) == Seq::<InvalidRule>::empty(),
    decreases good.len(),
{
    let patterns = good.map_values(written());
    if good.len() > 0 {
        let rest = good.drop_last();
        assert forall|i: int| 0 <= i < rest.len() implies reads_back(#[trigger] rest[i])
            && rest[i].list == list by {
            assert(rest[i] == good[i]);
        }
        lemma_read_back(rest, list);
        assert(patterns.drop_last() =~= rest.map_values(written()));
        assert(reads_back(good[good.len() - 1]));
        assert(patterns.last() == written()(good.last()));
        assert(rest.push(good.last()) =~= good);
        assert(accepted(patterns, list) =~= good);
    } else {
        assert(accepted(patterns, list) =~= good);
    }
}

proof fn lemma_read_back_more(good: Seq<OverrideRule>, bad: Seq<InvalidRule>, list: ListKind)
    requires
        accepted(good.map_values(written()), list) == good,
        refused(good.map_values(written()), list) == Seq::<InvalidRule>::empty(),
        forall|i: int|
            0 <= i < bad.len() ==> pattern((#[trigger] bad[i]).raw) == Err::<
                (Seq<char>, bool),
                InvalidReason,
            >(bad[i].reason) && bad[i].list == list,
    ensures
        accepted(good.map_values(written()) + bad.map_values(raw_text()), list) == good,
        refused(good.map_values(written()) + bad.map_values(raw_text()), list) == bad,
    decreases bad.len(),
{
    let first = good.map_values(written());
    let patterns = first + bad.map_values(raw_text());
    if bad.len() > 0 {
        let rest = bad.drop_last();
        assert forall|i: int| 0 <= i < rest.len() implies pattern((#[trigger] rest[i]).raw)
            == Err::<(Seq<char>, bool), InvalidReason>(rest[i].reason) && rest[i].list
            == list by {
            assert(rest[i] == bad[i]);
        }
        lemma_read_back_more(good, rest, list);
        assert(patterns.drop_last() =~= first + rest.map_values(raw_text()));
        assert(patterns.last() == bad.last().raw);
        assert(pattern(bad[bad.len() - 1].raw) is Err);
        assert(rest.push(bad.last()) =~= bad);
        assert(refused(patterns, list) =~= bad);
    } else {
        assert(patterns =~= first);
        assert(refused(patterns, list) =~= bad);
    }
}

/// No pattern is lost: each is accepted or handed back.
pub proof fn law_every_pattern_is_accounted_for(patterns: Seq<Seq<char>>, list: ListKind)
    ensures
        accepted(patterns, list).len() + refused(patterns, list).len() == patterns.len(),
    decreases patterns.len(),
{
    if patterns.len() > 0 {
        law_every_pattern_is_accounted_for(patterns.drop_last(), list);
    }
}

/// What the lists say of a name is decided by its rules alone, and the allowlist
/// comes first: a rule covers its own domain and, if it is a wildcard, whatever
/// ends in a dot and its domain. Nothing is said of a name that no rule covers.
pub proof fn law_what_the_lists_say(rules: Seq<OverrideRule>, query: Seq<char>)
    ensures
        verdict(rules, query) == Some(ListKind::Allowlist) <==> exists|i: int, before: Seq<char>|
            #![trigger rules[i], before.len()]
            0 <= i < rules.len() && rules[i].list == ListKind::Allowlist && (query
                == rules[i].domain || (rules[i].is_wildcard && query == before + seq!['.']
                + rules[i].domain)),
        verdict(rules, query) is None <==> forall|i: int, before: Seq<char>|
            #![trigger rules[i], before.len()]
            0 <= i < rules.len() ==> query != rules[i].domain && (rules[i].is_wildcard ==> query
                != before + seq!['.'] + rules[i].domain),
        verdict(rules, query) == Some(ListKind::Blocklist) ==> exists|i: int, before: Seq<char>|
            #![trigger rules[i], before.len()]
            0 <= i < rules.len() && rules[i].list == ListKind::Blocklist && (query
                == rules[i].domain || (rules[i].is_wildcard && query == before + seq!['.']
                + rules[i].domain)),
{
    assert forall|i: int, before: Seq<char>|
        #![trigger rules[i], before.len()]
        0 <= i < rules.len() && (query == rules[i].domain || (rules[i].is_wildcard && query
            == before + seq!['.'] + rules[i].domain)) implies matches_rule(query, rules[i]) by {
        if query != rules[i].domain {
            lemma_ends_in(query, before, rules[i].domain);
        }
    }
    assert forall|i: int| 0 <= i < rules.len() && matches_rule(query, #[trigger] rules[i]) implies {
        let before = query.take(query.len() - rules[i].domain.len() - 1);
        query == rules[i].domain || (rules[i].is_wildcard && query == before + seq!['.']
            + rules[i].domain)
    } by {
        if query != rules[i].domain {
            lemma_what_comes_before(query, rules[i].domain);
        }
    }
    if verdict(rules, query) == Some(ListKind::Allowlist) {
        let i = choose|i: int|
            0 <= i < rules.len() && (#[trigger] rules[i]).list == ListKind::Allowlist
                && matches_rule(query, rules[i]);
        let before = query.take(query.len() - rules[i].domain.len() - 1);
        assert(before.len() >= 0);
        assert(rules[i].list == ListKind::Allowlist);
    }
    if verdict(rules, query) == Some(ListKind::Blocklist) {
        let i = choose|i: int|
            0 <= i < rules.len() && (#[trigger] rules[i]).list == ListKind::Blocklist
                && matches_rule(query, rules[i]);
        let before = query.take(query.len() - rules[i].domain.len() - 1);
        assert(before.len() >= 0);
        assert(rules[i].list == ListKind::Blocklist);
    }
    if verdict(rules, query) is None {
        assert forall|i: int, before: Seq<char>|
            #![trigger rules[i], before.len()]
            0 <= i < rules.len() implies query != rules[i].domain && (rules[i].is_wildcard
            ==> query != before + seq!['.'] + rules[i].domain) by {
            assert(!matches_rule(query, rules[i])) by {
                assert(rules[i].list == ListKind::Allowlist || rules[i].list
                    == ListKind::Blocklist);
            }
        }
    }
    if forall|i: int, before: Seq<char>|
        #![trigger rules[i], before.len()]
        0 <= i < rules.len() ==> query != rules[i].domain && (rules[i].is_wildcard ==> query
            != before + seq!['.'] + rules[i].domain) {
        assert forall|i: int| 0 <= i < rules.len() implies !matches_rule(
            query,
            #[trigger] rules[i],
        ) by {
            let before = query.take(query.len() - rules[i].domain.len() - 1);
            assert(before.len() >= 0);
        }
    }
}

proof fn lemma_ends_in(query: Seq<char>, before: Seq<char>, domain: Seq<char>)
    requires
        query == before + seq!['.'] + domain,
    ensures
        (seq!['.'] + domain).is_suffix_of(query),
{
    let suffix = seq!['.'] + domain;
    assert(query.subrange(query.len() - suffix.len(), query.len() as int) =~= suffix);
}

proof fn lemma_what_comes_before(query: Seq<char>, domain: Seq<char>)
    requires
        (seq!['.'] + domain).is_suffix_of(query),
    ensures
        query == query.take(query.len() - domain.len() - 1) + seq!['.'] + domain,
{
    let suffix = seq!['.'] + domain;
    let before = query.take(query.len() - domain.len() - 1);
    assert(query =~= before + suffix);
    assert(before + suffix =~= before + seq!['.'] + domain);
}

/// With exact rules alone, the lists say something of their own domains and of no
/// other name.
pub proof fn law_exact_rules_cover_their_own_domains(rules: Seq<OverrideRule>, query: Seq<char>)
    requires
        forall|i: int| 0 <= i < rules.len() ==> !(#[trigger] rules[i]).is_wildcard,
    ensures
        verdict(rules, query) is Some <==> exists|i: int|
            0 <= i < rules.len() && (#[trigger] rules[i]).domain == query,
{
    law_what_the_lists_say(rules, query);
    if exists|i: int| 0 <= i < rules.len() && (#[trigger] rules[i]).domain == query {
        let i = choose|i: int| 0 <= i < rules.len() && (#[trigger] rules[i]).domain == query;
        assert(rules[i].domain == query && Seq::<char>::empty().len() == 0);
    }
}

/// A rule that does not cover a name does not count for it, wherever it stands;
/// and of the rules that do, only their lists count, not their order.
pub proof fn law_only_rules_that_cover_count(
    rules: Seq<OverrideRule>,
    rule: OverrideRule,
    query: Seq<char>,
)
    ensures
        query != rule.domain && (forall|before: Seq<char>|
            #![trigger before.len()]
            query != before + seq!['.'] + rule.domain) ==> verdict(rules.push(rule), query)
            == verdict(rules, query),
        query == rule.domain ==> verdict(rules.push(rule), query) == if rule.list
            == ListKind::Allowlist || verdict(rules, query) == Some(ListKind::Allowlist) {
            Some(ListKind::Allowlist)
        } else {
            Some(ListKind::Blocklist)
        },
        verdict(rules.reverse(), query) == verdict(rules, query),
{
    let more = rules.push(rule);
    assert(more[rules.len() as int] == rule);
    assert forall|i: int| 0 <= i < rules.len() implies #[trigger] more[i] == rules[i] by {}
    if matches_rule(query, rule) && query != rule.domain {
        lemma_what_comes_before(query, rule.domain);
        assert(query.take(query.len() - rule.domain.len() - 1).len() >= 0);
    }
    assert forall|list: ListKind| #[trigger]
        listed(more, list, query) == (listed(rules, list, query) || (rule.list == list
            && matches_rule(query, rule))) by {
        if listed(rules, list, query) {
            let i = choose|i: int|
                0 <= i < rules.len() && (#[trigger] rules[i]).list == list && matches_rule(
                    query,
                    rules[i],
                );
            assert(more[i].list == list);
        }
        if listed(more, list, query) {
            let i = choose|i: int|
                0 <= i < more.len() && (#[trigger] more[i]).list == list && matches_rule(
                    query,
                    more[i],
                );
            if i < rules.len() {
                assert(rules[i].list == list);
            }
        }
    }
    assert(listed(more, ListKind::Allowlist, query) == (listed(
        rules,
        ListKind::Allowlist,
        query,
    ) || (rule.list == ListKind::Allowlist && matches_rule(query, rule))));
    assert(listed(more, ListKind::Blocklist, query) == (listed(
        rules,
        ListKind::Blocklist,
        query,
    ) || (rule.list == ListKind::Blocklist && matches_rule(query, rule))));
    let back = rules.reverse();
    assert forall|list: ListKind| #[trigger]
        listed(back, list, query) == listed(rules, list, query) by {
        if listed(rules, list, query) {
            let i = choose|i: int|
                0 <= i < rules.len() && (#[trigger] rules[i]).list == list && matches_rule(
                    query,
                    rules[i],
                );
            assert(back[rules.len() - 1 - i] == rules[i]);
        }
        if listed(back, list, query) {
            let i = choose|i: int|
                0 <= i < back.len() && (#[trigger] back[i]).list == list && matches_rule(
                    query,
                    back[i],
                );
            assert(rules[rules.len() - 1 - i] == back[i]);
        }
    }
    assert(listed(back, ListKind::Allowlist, query) == listed(rules, ListKind::Allowlist, query));
    assert(listed(back, ListKind::Blocklist, query) == listed(rules, ListKind::Blocklist, query));
}

/// How a pattern is read. Without a star it is the name itself and covers that
/// alone; behind `*.` it is the name and covers what is below it, too. A star
/// anywhere else is refused, and so is a name that is none or comes down to
/// nothing.
pub proof fn law_how_a_pattern_is_read(body: Seq<char>)
    ensures
        !body.contains('*') ==> pattern(body) == match crate::normalized(body) {
            None => Err::<(Seq<char>, bool), InvalidReason>(InvalidReason::InvalidDomain),
            Some(name) => if name.len() == 0 {
                Err(InvalidReason::EmptyDomain)
            } else {
                Ok((name, false))
            },
        },
        !body.contains('*') ==> pattern(seq!['*', '.'] + body) == match crate::normalized(body) {
            None => Err::<(Seq<char>, bool), InvalidReason>(InvalidReason::InvalidDomain),
            Some(name) => if name.len() == 0 {
                Err(InvalidReason::EmptyDomain)
            } else {
                Ok((name, true))
            },
        },
        body.contains('*') ==> pattern(seq!['*', '.'] + body) == Err::<
            (Seq<char>, bool),
            InvalidReason,
        >(InvalidReason::UnexpectedWildcard),
        body.contains('*') && !(seq!['*', '.']).is_prefix_of(body) ==> pattern(body) == Err::<
            (Seq<char>, bool),
            InvalidReason,
        >(InvalidReason::UnexpectedWildcard),
{
    let starred = seq!['*', '.'] + body;
    assert(starred.skip(2) =~= body);
    assert(starred[0] == '*' && starred[1] == '.');
    if wildcard(body) {
        assert(body.take(2) =~= seq!['*', '.']);
        assert(body.subrange(0, 2) =~= seq!['*', '.']);
        assert(body[0] == '*');
    }
}

/// What a pattern comes down to depends on the spelling of its domain as the
/// caller gives it: the domain as given, whether it is a wildcard, and never a
/// domain that is empty.
pub proof fn law_a_pattern_takes_its_domain_as_given(body: Seq<char>, name: Seq<char>)
    requires
        !body.contains('*'),
        name.len() > 0,
    ensures
        pattern_with(body, Some(name)) == Ok::<(Seq<char>, bool), InvalidReason>((name, false)),
        pattern_with(seq!['*', '.'] + body, Some(name)) == Ok::<(Seq<char>, bool), InvalidReason>(
            (name, true),
        ),
        pattern_with(body, Some(Seq::empty())) == Err::<(Seq<char>, bool), InvalidReason>(
            InvalidReason::EmptyDomain,
        ),
        pattern_with(body, None) == Err::<(Seq<char>, bool), InvalidReason>(
            InvalidReason::InvalidDomain,
        ),
{
    let starred = seq!['*', '.'] + body;
    assert(starred.skip(2) =~= body);
    if wildcard(body) {
        assert(body[0] == '*');
    }
}

/// Patterns are taken one after the other: an accepted one adds its rule behind
/// the others, one that is not adds to those that are handed back, and neither
/// touches what came before.
pub proof fn law_patterns_are_taken_one_by_one(
    patterns: Seq<Seq<char>>,
    raw: Seq<char>,
    list: ListKind,
)
    ensures
        accepted(Seq::empty(), list) == Seq::<OverrideRule>::empty(),
        refused(Seq::empty(), list) == Seq::<InvalidRule>::empty(),
        match pattern(raw) {
            Ok((domain, is_wildcard)) => accepted(patterns.push(raw), list) == accepted(
                patterns,
                list,
            ).push(OverrideRule { domain, is_wildcard, list }) && refused(patterns.push(raw), list)
                == refused(patterns, list),
            Err(reason) => accepted(patterns.push(raw), list) == accepted(patterns, list)
                && refused(patterns.push(raw), list) == refused(patterns, list).push(
                InvalidRule { raw, list, reason },
            ),
        },
{
    assert(patterns.push(raw).drop_last() =~= patterns);
}

/// An entry stands for the rule that its fields give, and a list of entries for
/// their rules in the same order.
pub proof fn law_entries_stand_for_their_rules(entries: Seq<OverrideEntry>, i: int)
    ensures
        rules_of(entries).len() == entries.len(),
        0 <= i < entries.len() ==> rules_of(entries)[i].domain == entries[i].domain@,
        0 <= i < entries.len() ==> rules_of(entries)[i].is_wildcard == entries[i].is_wildcard,
        0 <= i < entries.len() ==> rules_of(entries)[i].list == entries[i].list,
        0 <= i < entries.len() ==> entries[i]@ == rules_of(entries)[i],
{
}

/// What is handed back of a pattern is the pattern, its list and the reason.
pub proof fn law_refused_patterns_are_handed_back(entries: Seq<InvalidEntry>, i: int)
    ensures
        rejected(entries).len() == entries.len(),
        0 <= i < entries.len() ==> rejected(entries)[i].raw == entries[i].raw@,
        0 <= i < entries.len() ==> rejected(entries)[i].list == entries[i].list,
        0 <= i < entries.len() ==> rejected(entries)[i].reason == entries[i].reason,
{
}

/// A domain conflicts if and only if a rule of each list has it: the result
/// holds the domains of the allowlist's rules for which that is so, in their
/// order.
pub proof fn law_conflicts_are_the_domains_of_both_lists(
    rules: Seq<OverrideRule>,
    both: spec_fn(OverrideRule) -> bool,
)
    requires
        forall|rule: OverrideRule| #[trigger]
            both(rule) <==> rule.list == ListKind::Allowlist && exists|i: int|
                0 <= i < rules.len() && (#[trigger] rules[i]).list != ListKind::Allowlist
                    && rules[i].domain == rule.domain,
    ensures
        conflicting(rules).len() == rules.filter(both).len(),
        forall|k: int|
            0 <= k < conflicting(rules).len() ==> #[trigger] conflicting(rules)[k]
                == rules.filter(both)[k].domain,
{
    assert forall|rule: OverrideRule| both(rule) == #[trigger] contested(rules)(rule) by {
        if both(rule) {
            let i = choose|i: int|
                0 <= i < rules.len() && (#[trigger] rules[i]).list != ListKind::Allowlist
                    && rules[i].domain == rule.domain;
            assert(rules[i].list == ListKind::Blocklist);
        }
        if contested(rules)(rule) {
            let i = choose|i: int|
                0 <= i < rules.len() && (#[trigger] rules[i]).list == ListKind::Blocklist
                    && rules[i].domain == rule.domain;
            assert(rules[i].list != ListKind::Allowlist);
        }
    }
    assert(both =~= contested(rules));
}

/// The changes are the rules of the first version that the second does not hold,
/// in their order, and then those of the second that the first does not hold.
pub proof fn law_changes_come_in_order(
    before: Seq<OverrideRule>,
    after: Seq<OverrideRule>,
    gone: spec_fn(OverrideRule) -> bool,
    came: spec_fn(OverrideRule) -> bool,
)
    requires
        forall|rule: OverrideRule| #[trigger] gone(rule) <==> !after.contains(rule),
        forall|rule: OverrideRule| #[trigger] came(rule) <==> !before.contains(rule),
    ensures
        changed(before, after) == before.filter(gone) + after.filter(came),
{
    assert(gone =~= not_in(after));
    assert(came =~= not_in(before));
}

/// Adding a rule puts it behind all others, unless it is among them; removing one
/// keeps every other rule in its place and order.
pub proof fn law_adding_and_removing_touch_one_rule(
    rules: Seq<OverrideRule>,
    rule: OverrideRule,
    others: spec_fn(OverrideRule) -> bool,
)
    requires
        forall|other: OverrideRule| #[trigger] others(other) <==> other != rule,
    ensures
        with_rule(rules, rule) == if rules.contains(rule) {
            rules
        } else {
            rules + seq![rule]
        },
        without_rule(rules, rule) == rules.filter(others),
{
    assert(rules.push(rule) =~= rules + seq![rule]);
    assert(others =~= other_than(rule));
}

/// How a list is written: each of its rules in order, a wildcard with `*.` before
/// its domain and any other as its domain, and behind them what was not accepted,
/// as it was.
pub proof fn law_how_a_list_is_written(
    rules: Seq<OverrideRule>,
    invalid: Seq<InvalidRule>,
    list: ListKind,
    good: spec_fn(OverrideRule) -> bool,
    bad: spec_fn(InvalidRule) -> bool,
)
    requires
        forall|rule: OverrideRule| #[trigger] good(rule) <==> rule.list == list,
        forall|rule: InvalidRule| #[trigger] bad(rule) <==> rule.list == list,
    ensures
        patterns_of(rules, invalid, list).len() == rules.filter(good).len() + invalid.filter(
            bad,
        ).len(),
        forall|k: int|
            0 <= k < rules.filter(good).len() ==> #[trigger] patterns_of(rules, invalid, list)[k]
                == if rules.filter(good)[k].is_wildcard {
                seq!['*', '.'] + rules.filter(good)[k].domain
            } else {
                rules.filter(good)[k].domain
            },
        forall|k: int|
            0 <= k < invalid.filter(bad).len() ==> #[trigger] invalid.filter(bad)[k].raw
                == patterns_of(rules, invalid, list)[rules.filter(good).len() + k],
{
    assert(good =~= of_list(list));
    assert(bad =~= written_in(list));
}

/// A list covers a name if and only if one of its own rules does: by being the
/// name, or as a wildcard by what follows some part of the name and a dot. Exact
/// rules never cover what is below them, and the rules of the other list do not
/// matter.
pub proof fn law_which_names_a_list_covers(
    rules: Seq<OverrideRule>,
    list: ListKind,
    query: Seq<char>,
    own: Seq<OverrideRule>,
)
    requires
        forall|i: int| 0 <= i < rules.len() && (#[trigger] rules[i]).list == list ==> own.contains(
            rules[i],
        ),
        forall|i: int|
            0 <= i < own.len() ==> (#[trigger] own[i]).list == list && rules.contains(own[i]),
    ensures
        listed(rules, list, query) <==> exists|i: int, before: Seq<char>|
            #![trigger rules[i], before.len()]
            0 <= i < rules.len() && rules[i].list == list && (query == rules[i].domain || (
            rules[i].is_wildcard && query == before + seq!['.'] + rules[i].domain)),
        listed(rules, list, query) == listed(own, list, query),
        (forall|i: int| 0 <= i < own.len() ==> !(#[trigger] own[i]).is_wildcard) ==> (listed(
            rules,
            list,
            query,
        ) <==> exists|i: int| 0 <= i < own.len() && (#[trigger] own[i]).domain == query),
{
    if listed(rules, list, query) {
        let i = choose|i: int|
            0 <= i < rules.len() && (#[trigger] rules[i]).list == list && matches_rule(
                query,
                rules[i],
            );
        let before = query.take(query.len() - rules[i].domain.len() - 1);
        if query != rules[i].domain {
            lemma_what_comes_before(query, rules[i].domain);
        }
        assert(before.len() >= 0);
        assert(own.contains(rules[i]));
        let k = choose|k: int| 0 <= k < own.len() && own[k] == rules[i];
        assert(own[k].list == list && matches_rule(query, own[k]));
    }
    if exists|i: int, before: Seq<char>|
        #![trigger rules[i], before.len()]
        0 <= i < rules.len() && rules[i].list == list && (query == rules[i].domain || (
        rules[i].is_wildcard && query == before + seq!['.'] + rules[i].domain)) {
        let (i, before) = choose|i: int, before: Seq<char>|
            #![trigger rules[i], before.len()]
            0 <= i < rules.len() && rules[i].list == list && (query == rules[i].domain || (
            rules[i].is_wildcard && query == before + seq!['.'] + rules[i].domain));
        if query != rules[i].domain {
            lemma_ends_in(query, before, rules[i].domain);
        }
        assert(matches_rule(query, rules[i]));
    }
    if listed(own, list, query) {
        let k = choose|k: int|
            0 <= k < own.len() && (#[trigger] own[k]).list == list && matches_rule(query, own[k]);
        let i = choose|i: int| 0 <= i < rules.len() && rules[i] == own[k];
        assert(rules[i].list == list && matches_rule(query, rules[i]));
    }
    if exists|i: int| 0 <= i < own.len() && (#[trigger] own[i]).domain == query {
        let k = choose|k: int| 0 <= k < own.len() && (#[trigger] own[k]).domain == query;
        assert(own[k].list == list && matches_rule(query, own[k]));
    }
}

/// A rule covers a name where it is the name, or where it is a wildcard and the name
/// is something, a dot and its domain.
pub proof fn law_when_a_rule_covers_a_name(query: Seq<char>, rule: OverrideRule)
    ensures
        matches_rule(query, rule) <==> query == rule.domain || (rule.is_wildcard && exists|
            before: Seq<char>,
        |
            #![trigger before.len()]
            query == before + seq!['.'] + rule.domain),
{
    if matches_rule(query, rule) && query != rule.domain {
        lemma_what_comes_before(query, rule.domain);
        let before = query.take(query.len() - rule.domain.len() - 1);
        assert(before.len() >= 0);
    }
    if exists|before: Seq<char>|
        #![trigger before.len()]
        query == before + seq!['.'] + rule.domain {
        let before = choose|before: Seq<char>|
            #![trigger before.len()]
            query == before + seq!['.'] + rule.domain;
        lemma_ends_in(query, before, rule.domain);
    }
}

/// A pattern with a star in its domain is refused whatever the domain would be.
pub proof fn law_stars_are_refused_first(body: Seq<char>, name: Option<Seq<char>>)
    requires
        body.contains('*'),
    ensures
        pattern_with(seq!['*', '.'] + body, name) == Err::<(Seq<char>, bool), InvalidReason>(
            InvalidReason::UnexpectedWildcard,
        ),
        !(seq!['*', '.']).is_prefix_of(body) ==> pattern_with(body, name) == Err::<
            (Seq<char>, bool),
            InvalidReason,
        >(InvalidReason::UnexpectedWildcard),
{
    let starred = seq!['*', '.'] + body;
    assert(starred.skip(2) =~= body);
    assert(starred[0] == '*' && starred[1] == '.');
    if wildcard(body) {
        assert(body.subrange(0, 2) =~= seq!['*', '.']);
    }
}

/// References to entries stand for their rules in the same order.
pub proof fn law_references_stand_for_their_rules(entries: Seq<&OverrideEntry>, i: int)
    ensures
        rules_of_refs(entries).len() == entries.len(),
        0 <= i < entries.len() ==> rules_of_refs(entries)[i].domain == entries[i].domain@,
        0 <= i < entries.len() ==> rules_of_refs(entries)[i].is_wildcard == entries[i].is_wildcard,
        0 <= i < entries.len() ==> rules_of_refs(entries)[i].list == entries[i].list,
{
}

/// What a log says of a refused pattern depends on its list and the reason alone.
pub proof fn law_a_log_names_no_pattern(list: ListKind, reason: InvalidReason)
    ensures
        redacted(list, reason) == "InvalidEntry { raw: \"<redacted>\", list: "@ + (match list {
            ListKind::Allowlist => "Allowlist"@,
            ListKind::Blocklist => "Blocklist"@,
        }) + ", reason: "@ + (match reason {
            InvalidReason::UnexpectedWildcard => "UnexpectedWildcard"@,
            InvalidReason::EmptyDomain => "EmptyDomain"@,
            InvalidReason::InvalidDomain => "InvalidDomain"@,
        }) + " }"@,
{
}

/// Lists and reasons have the names that they are known by.
pub proof fn law_names_of_lists_and_reasons()
    ensures
        ListKind::Allowlist.spec_name() == "Allowlist"@,
        ListKind::Blocklist.spec_name() == "Blocklist"@,
        InvalidReason::UnexpectedWildcard.spec_name() == "UnexpectedWildcard"@,
        InvalidReason::EmptyDomain.spec_name() == "EmptyDomain"@,
        InvalidReason::InvalidDomain.spec_name() == "InvalidDomain"@,
{
}

} // verus!
