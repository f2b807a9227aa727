//! The Discord side of the configuration: channel routes, report settings and
//! the punishments that each rule carries.
use vstd::prelude::*;
use crate::assoc::{assoc_map, keys_distinct, lemma_assoc_contains, lemma_assoc_value,
    lemma_assoc_update, lemma_assoc_push, lemma_assoc_len};
use crate::decimal::{DecimalValue, canonical, lemma_canonical_idempotent, same_number,
    law_canonical_is_numeric_equality};
use crate::text::{all_whitespace, chars_equal, chars_of, lemma_trim_ignores_surrounding_whitespace,
    skip_whitespace, back_over_whitespace, trim_chars, trimmed};

verus! {

#[verifier::external_type_specification]
#[verifier::external_body]
pub struct ExHumanDuration(humantime::Duration);

/// A kind of punishment.
#[derive(Clone, Copy, Debug, PartialEq, Eq)]
pub enum PunishmentType {
    Ban,
    Kick,
    Mute,
}

/// The name under which a punishment is written.
pub open spec fn punishment_text(p: PunishmentType) -> Seq<char> {
    match p {
        PunishmentType::Ban => seq!['b', 'a', 'n'],
        PunishmentType::Kick => seq!['k', 'i', 'c', 'k'],
        PunishmentType::Mute => seq!['m', 'u', 't', 'e'],
    }
}

/// The punishment that a text names, with surrounding whitespace ignored.
pub open spec fn punishment_from_text(s: Seq<char>) -> Option<PunishmentType> {
    let t = trimmed(s);
    if t == punishment_text(PunishmentType::Ban) {
        Some(PunishmentType::Ban)
    } else if t == punishment_text(PunishmentType::Kick) {
        Some(PunishmentType::Kick)
    } else if t == punishment_text(PunishmentType::Mute) {
        Some(PunishmentType::Mute)
    } else {
        None
    }
}

/// Why a text names no punishment.
#[derive(Clone, Copy, Debug, PartialEq, Eq)]
pub enum PunishmentTypeError {
    WrongPunishmentType,
}

impl PunishmentTypeError {
    /// The message of the error.
    pub fn message(&self) -> (r: String)
        ensures
            r@ == "Wrong punshiment type"@,
    {
        "Wrong punshiment type".to_owned()
    }
}

impl PunishmentType {
    /// The name of the punishment, as it is written in the configuration.
    pub fn to_string(&self) -> (r: String)
        ensures
            r@ == punishment_text(*self),
    {
        match self {
            PunishmentType::Ban => {
                proof {
                    reveal_strlit("ban");
                }
                "ban".to_owned()
            },
            PunishmentType::Kick => {
                proof {
                    reveal_strlit("kick");
                }
                "kick".to_owned()
            },
            PunishmentType::Mute => {
                proof {
                    reveal_strlit("mute");
                }
                "mute".to_owned()
            },
        }
    }

    /// Reads a punishment name; whitespace around it is ignored.
    pub fn from_str(s: &str) -> (r: Result<PunishmentType, PunishmentTypeError>)
        ensures
            match r {
                Ok(p) => punishment_from_text(s@) == Some(p),
                Err(e) => punishment_from_text(s@) is None && e
                    == PunishmentTypeError::WrongPunishmentType,
            },
    {
        let t = trim_chars(&chars_of(s));
        proof {
            reveal_strlit("ban");
            reveal_strlit("kick");
            reveal_strlit("mute");
        }
        let ban = chars_of("ban");
        let kick = chars_of("kick");
        let mute = chars_of("mute");
        assert(ban@ =~= punishment_text(PunishmentType::Ban));
        assert(kick@ =~= punishment_text(PunishmentType::Kick));
        assert(mute@ =~= punishment_text(PunishmentType::Mute));
        if chars_equal(&t, &ban) {
            Ok(PunishmentType::Ban)
        } else if chars_equal(&t, &kick) {
            Ok(PunishmentType::Kick)
        } else if chars_equal(&t, &mute) {
            Ok(PunishmentType::Mute)
        } else {
            Err(PunishmentTypeError::WrongPunishmentType)
        }
    }
}

/// Reading back the name of a punishment gives that punishment: the
/// configuration writes punishments by name and reads them by name.
pub proof fn law_punishment_name_round_trip(p: PunishmentType)
    ensures
        punishment_from_text(punishment_text(p)) == Some(p),
{
    let t = punishment_text(p);
    assert(skip_whitespace(t, 0) == 0);
    assert(back_over_whitespace(t, t.len() as int) == t.len());
    assert(trimmed(t) =~= t);
}

/// Whitespace around a punishment name does not change which punishment it
/// names.
pub proof fn law_punishment_ignores_surrounding_whitespace(
    before: Seq<char>,
    name: Seq<char>,
    after: Seq<char>,
)
    requires
        all_whitespace(before),
        all_whitespace(after),
    ensures
        punishment_from_text(before + name + after) == punishment_from_text(name),
{
    lemma_trim_ignores_surrounding_whitespace(before, name, after);
}

/// Where the messages of one game server go on Discord, and where they come
/// from.
#[derive(Debug, Clone)]
pub struct RouteEntry {
    pub webhook_url: String,
    pub channel_id: u64,
}

impl Default for RouteEntry {
    fn default() -> (r: Self)
        ensures
            r.webhook_url@ == Seq::<char>::empty(),
            r.channel_id == 0,
    {
        RouteEntry { webhook_url: String::new(), channel_id: 0 }
    }
}

/// The routes of the bridge, by the name of the service (game server) they
/// serve. A name occurs at most once.
pub struct Routes {
    entries: Vec<(String, RouteEntry)>,
}

impl Routes {
    /// The routes as pairs of service name and route.
    pub closed spec fn pairs(&self) -> Seq<(Seq<char>, RouteEntry)> {
        self.entries@.map_values(|e: (String, RouteEntry)| (e.0@, e.1))
    }

    #[verifier::type_invariant]
    closed spec fn names_distinct(&self) -> bool {
        keys_distinct(self.pairs())
    }
}

impl View for Routes {
    type V = Map<Seq<char>, RouteEntry>;

    closed spec fn view(&self) -> Map<Seq<char>, RouteEntry> {
        assoc_map(self.pairs())
    }
}

impl Routes {
    /// No routes.
    pub fn new() -> (r: Routes)
        ensures
            r@ == Map::<Seq<char>, RouteEntry>::empty(),
    {
        let r = Routes { entries: Vec::new() };
        assert(r.pairs() =~= Seq::empty());
        r
    }

    /// The number of routes.
    pub fn len(&self) -> (n: usize)
        ensures
            n == self@.len(),
            n == self@.dom().len(),
    {
        proof {
            use_type_invariant(self);
            self.lemma_len();
        }
        self.entries.len()
    }

    proof fn lemma_len(&self)
        requires
            keys_distinct(self.pairs()),
        ensures
            self.entries.len() == self@.len(),
    {
        lemma_assoc_len(self.pairs());
    }

    /// The route at a position of the table: its service name and the route.
    pub fn entry_at(&self, i: usize) -> (r: (&String, &RouteEntry))
        requires
            i < self@.len(),
        ensures
            self@.contains_key(r.0@),
            self@[r.0@] == *r.1,
    {
        proof {
            use_type_invariant(self);
            self.lemma_len();
            lemma_assoc_value(self.pairs(), i as int);
        }
        (&self.entries[i].0, &self.entries[i].1)
    }

    /// Sets the route of a service, replacing the one it had.
    pub fn insert(&mut self, name: String, entry: RouteEntry)
        ensures
            final(self)@ == old(self)@.insert(name@, entry),
    {
        proof {
            use_type_invariant(&*self);
        }
        let mut i: usize = 0;
        while i < self.entries.len()
            invariant
                i <= self.entries.len(),
                keys_distinct(self.pairs()),
                self.pairs() == old(self).pairs(),
                forall|j: int| 0 <= j < i ==> self.pairs()[j].0 != name@,
            decreases self.entries.len() - i,
        {
            if self.entries[i].0 == name {
                let ghost old_pairs = self.pairs();
                proof {
                    lemma_assoc_update(old_pairs, i as int, entry);
                }
                let mut entries: Vec<(String, RouteEntry)> = Vec::new();
        std::mem::swap(&mut entries, &mut self.entries);
                entries.set(i, (name, entry));
                assert(entries@.map_values(|e: (String, RouteEntry)| (e.0@, e.1)) =~= old_pairs.update(
                    i as int,
                    (old_pairs[i as int].0, entry),
                ));
                self.entries = entries;
                assert(self.pairs() =~= old_pairs.update(i as int, (old_pairs[i as int].0, entry)));
                return;
            }
            i = i + 1;
        }
        let ghost old_pairs = self.pairs();
        proof {
            lemma_assoc_push(old_pairs, name@, entry);
        }
        let mut entries: Vec<(String, RouteEntry)> = Vec::new();
        std::mem::swap(&mut entries, &mut self.entries);
        entries.push((name, entry));
        assert(entries@.map_values(|e: (String, RouteEntry)| (e.0@, e.1)) =~= old_pairs.push(
            (name@, entry),
        ));
        self.entries = entries;
        assert(self.pairs() =~= old_pairs.push((name@, entry)));
    }

    /// The route of a service.
    pub fn get(&self, name: &str) -> (r: Option<&RouteEntry>)
        ensures
            match r {
                Some(e) => self@.contains_key(name@) && self@[name@] == *e,
                None => !self@.contains_key(name@),
            },
    {
        proof {
            use_type_invariant(self);
            lemma_assoc_contains(self.pairs(), name@);
        }
        let wanted = name.to_owned();
        let mut i: usize = 0;
        while i < self.entries.len()
            invariant
                i <= self.entries.len(),
                wanted@ == name@,
                keys_distinct(self.pairs()),
                forall|j: int| 0 <= j < i ==> self.pairs()[j].0 != name@,
            decreases self.entries.len() - i,
        {
            if self.entries[i].0 == wanted {
                proof {
                    lemma_assoc_value(self.pairs(), i as int);
                }
                return Some(&self.entries[i].1);
            }
            i = i + 1;
        }
        None
    }

    /// A route whose Discord channel is `channel_id`, with its service name;
    /// `None` where no route uses that channel.
    pub fn find_by_channel(&self, channel_id: u64) -> (r: Option<(&String, &RouteEntry)>)
        ensures
            match r {
                Some((name, e)) => self@.contains_key(name@) && self@[name@] == *e && e.channel_id
                    == channel_id,
                None => forall|k: Seq<char>| #[trigger]
                    self@.contains_key(k) ==> self@[k].channel_id != channel_id,
            },
    {
        proof {
            use_type_invariant(self);
        }
        let mut i: usize = 0;
        while i < self.entries.len()
            invariant
                i <= self.entries.len(),
                keys_distinct(self.pairs()),
                forall|j: int| 0 <= j < i ==> self.pairs()[j].1.channel_id != channel_id,
            decreases self.entries.len() - i,
        {
            if self.entries[i].1.channel_id == channel_id {
                proof {
                    lemma_assoc_value(self.pairs(), i as int);
                }
                return Some((&self.entries[i].0, &self.entries[i].1));
            }
            i = i + 1;
        }
        proof {
            assert forall|k: Seq<char>| #[trigger] self@.contains_key(k) implies self@[k].channel_id
                != channel_id by {
                lemma_assoc_contains(self.pairs(), k);
                let j = choose|j: int| 0 <= j < self.pairs().len() && self.pairs()[j].0 == k;
                lemma_assoc_value(self.pairs(), j);
            }
        }
        None
    }
}

/// The punishment that breaking a rule carries, and for how long.
#[derive(Debug, Clone, Copy)]
pub struct RuleEntry {
    pub punishment_type: PunishmentType,
    pub duration: humantime::Duration,
}

/// The rules of the servers, by rule number. Rule numbers are compared as
/// numbers: "4.10" and "4.1" name the same rule. A number occurs at most once,
/// and each is kept in canonical form.
pub struct Rules {
    entries: Vec<(DecimalValue, RuleEntry)>,
}

impl Rules {
    #[verifier::type_invariant]
    closed spec fn numbers_distinct_and_canonical(&self) -> bool {
        &&& keys_distinct(self.entries@)
        &&& forall|i: int| 0 <= i < self.entries@.len() ==> canonical(#[trigger] self.entries@[i].0)
            == self.entries@[i].0
    }
}

impl View for Rules {
    type V = Map<DecimalValue, RuleEntry>;

    closed spec fn view(&self) -> Map<DecimalValue, RuleEntry> {
        assoc_map(self.entries@)
    }
}

impl Rules {
    /// No rules.
    pub fn new() -> (r: Rules)
        ensures
            r@ == Map::<DecimalValue, RuleEntry>::empty(),
    {
        let r = Rules { entries: Vec::new() };
        assert(r.entries@ =~= Seq::<(DecimalValue, RuleEntry)>::empty());
        r
    }

    /// The number of rules.
    pub fn len(&self) -> (n: usize)
        ensures
            n == self@.len(),
    {
        proof {
            use_type_invariant(self);
            lemma_assoc_len(self.entries@);
        }
        self.entries.len()
    }

    /// The rule at a position of the table: its canonical number and the rule.
    pub fn entry_at(&self, i: usize) -> (r: (DecimalValue, &RuleEntry))
        requires
            i < self@.len(),
        ensures
            self@.contains_key(r.0),
            self@[r.0] == *r.1,
            canonical(r.0) == r.0,
    {
        proof {
            use_type_invariant(self);
            lemma_assoc_len(self.entries@);
            lemma_assoc_value(self.entries@, i as int);
        }
        (self.entries[i].0, &self.entries[i].1)
    }

    /// Sets the rule with a number, replacing the rule with the same number.
    pub fn insert(&mut self, number: DecimalValue, entry: RuleEntry)
        ensures
            final(self)@ == old(self)@.insert(canonical(number), entry),
    {
        proof {
            use_type_invariant(&*self);
            lemma_canonical_idempotent(number);
        }
        let key = number.normalize();
        let mut i: usize = 0;
        while i < self.entries.len()
            invariant
                i <= self.entries.len(),
                key == canonical(number),
                canonical(key) == key,
                keys_distinct(self.entries@),
                forall|j: int| 0 <= j < self.entries@.len() ==> canonical(#[trigger] self.entries@[j].0)
                    == self.entries@[j].0,
                self.entries@ == old(self).entries@,
                forall|j: int| 0 <= j < i ==> self.entries@[j].0 != key,
            decreases self.entries.len() - i,
        {
            if self.entries[i].0 == key {
                let ghost old_pairs = self.entries@;
                proof {
                    lemma_assoc_update(old_pairs, i as int, entry);
                }
                let mut entries: Vec<(DecimalValue, RuleEntry)> = Vec::new();
                std::mem::swap(&mut entries, &mut self.entries);
                entries.set(i, (key, entry));
                assert(entries@ =~= old_pairs.update(i as int, (old_pairs[i as int].0, entry)));
                self.entries = entries;
                return;
            }
            i = i + 1;
        }
        let ghost old_pairs = self.entries@;
        proof {
            lemma_assoc_push(old_pairs, key, entry);
        }
        let mut entries: Vec<(DecimalValue, RuleEntry)> = Vec::new();
        std::mem::swap(&mut entries, &mut self.entries);
        entries.push((key, entry));
        assert(entries@ =~= old_pairs.push((key, entry)));
        self.entries = entries;
    }

    /// The rule whose number equals `number` as a number.
    pub fn get(&self, number: &DecimalValue) -> (r: Option<&RuleEntry>)
        ensures
            match r {
                Some(e) => self@.contains_key(canonical(*number)) && self@[canonical(*number)] == *e,
                None => !self@.contains_key(canonical(*number)),
            },
    {
        proof {
            use_type_invariant(self);
            lemma_assoc_contains(self.entries@, canonical(*number));
        }
        let key = number.normalize();
        let mut i: usize = 0;
        while i < self.entries.len()
            invariant
                i <= self.entries.len(),
                key == canonical(*number),
                keys_distinct(self.entries@),
                forall|j: int| 0 <= j < i ==> self.entries@[j].0 != key,
            decreases self.entries.len() - i,
        {
            if self.entries[i].0 == key {
                proof {
                    lemma_assoc_value(self.entries@, i as int);
                }
                return Some(&self.entries[i].1);
            }
            i = i + 1;
        }
        None
    }
}

/// The settings of the reports forum.
pub struct ReportsConfig {
    pub forum_id: u64,
    pub awaiting_tag_id: u64,
    pub resolved_tag_id: u64,
    pub denied_tag_id: u64,
    pub rules: Rules,
}

/// The Discord settings of the bot.
pub struct DiscordConfig {
    pub token: String,
    pub guild_id: u64,
    pub routes: Routes,
    pub reports: ReportsConfig,
}

/// After a rule is set under a number, any number equal to it as a number
/// finds that rule, and the rules of other numbers stay as they were.
pub proof fn law_rule_found_by_equal_number(
    rules: Map<DecimalValue, RuleEntry>,
    number: DecimalValue,
    entry: RuleEntry,
    query: DecimalValue,
)
    ensures
        same_number(number, query) ==> rules.insert(canonical(number), entry).contains_key(
            canonical(query),
        ) && rules.insert(canonical(number), entry)[canonical(query)] == entry,
        !same_number(number, query) ==> (rules.insert(canonical(number), entry).contains_key(
            canonical(query),
        ) == rules.contains_key(canonical(query)) && rules.insert(canonical(number), entry)[canonical(
            query,
        )] == rules[canonical(query)]),
{
    law_canonical_is_numeric_equality(number, query);
}

/// After a route is set for a service, looking the service up gives that
/// route, and the routes of other services stay as they were.
pub proof fn law_route_found_after_set(
    routes: Map<Seq<char>, RouteEntry>,
    name: Seq<char>,
    entry: RouteEntry,
    query: Seq<char>,
)
    ensures
        routes.insert(name, entry).contains_key(name),
        routes.insert(name, entry)[name] == entry,
        query != name ==> routes.insert(name, entry).contains_key(query) == routes.contains_key(query)
            && routes.insert(name, entry)[query] == routes[query],
{
}

} // verus!
