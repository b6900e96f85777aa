//! Configuration, split so that the only file you normally touch is a plain
//! list of process names.
//!
//! Three files can sit next to the executable:
//!
//!   processlist.cfg   the programs to watch, one name per line. Yours to edit.
//!   settings.toml     the two rates. Written by the tray menu.
//!   protocol.toml     optional. Only needed for a mouse other than the one
//!                     the built in commands were captured from.
//!
//! Reading and writing the files, and the TOML encoding, happen at the edge of
//! the program; this module holds what is decided from their contents.
use vstd::prelude::*;
use crate::text::{
    is_lower, is_space, lemma_lower_is_lower, lemma_trim_shape, lower_char,
    chars_of, decimal, decimal_string, lemma_decimal_injective, lemma_parse_decimal, lines,
    lower, lower_char_exec, parse_u32, parse_u32_spec, push_char, split_state, string_of,
    strip_cr, trim, trim_chars, join, no_newline, lemma_split_state_no_newline, lemma_split_join,
    lemma_trim_unchanged, lemma_trim_no_newline, lemma_lower_no_newline,
};

verus! {

broadcast use vstd::string::group_string_axioms;

/// The starting process list, written on first run.
pub const DEFAULT_PROCESS_LIST: &'static str = "\
# Programs that should use the active polling rate.
#
# One process name per line, including the .exe, matched case insensitively.
# Lines starting with # are ignored. Save the file, then choose \"Reload\" from
# the tray menu.
#
# Set the two rates themselves from the tray menu, not here.

cs2.exe
valorant.exe
overwatch.exe
";

/// Polling rates offered in the tray menu, low to high.
pub open spec fn standard_rates() -> Seq<u32> {
    seq![125u32, 250u32, 500u32, 1000u32, 2000u32, 4000u32]
}

/// The standard rates as a vector.
pub fn rates() -> (r: Vec<u32>)
    ensures
        r@ == standard_rates(),
{
    let r: Vec<u32> = vec![125, 250, 500, 1000, 2000, 4000];
    assert(r@ =~= standard_rates());
    r
}

/// How a command is delivered to the device.
#[derive(Debug, Clone, Copy, PartialEq, Eq, Structural)]
pub enum Method {
    /// Sent with HidD_SetFeature (a HID feature report).
    Feature,
    /// Sent with WriteFile (a HID output report).
    Output,
}

impl Default for Method {
    fn default() -> (m: Self)
        ensures
            m == Method::Feature,
    {
        Method::Feature
    }
}

/// The two rates and the small behaviour switches. This is what the tray menu
/// edits, so it is written back to disk whenever something changes.
#[derive(Debug, Clone, Copy, PartialEq, Eq, Structural)]
pub struct Settings {
    /// Rate in Hz while a listed program is running.
    pub active_rate: u32,
    /// Rate in Hz the rest of the time. This is the battery saving rate.
    pub inactive_rate: u32,
    /// Show a tray notification when a program starting turns the active rate
    /// on. Nothing else notifies, so the tray stays quiet the rest of the time.
    pub notifications: bool,
    /// How often the process list is rescanned, in milliseconds.
    pub poll_interval_ms: u64,
}

/// The settings used when none are stored.
pub open spec fn default_settings() -> Settings {
    Settings { active_rate: 4000, inactive_rate: 500, notifications: true, poll_interval_ms: 2000 }
}

impl Default for Settings {
    fn default() -> (s: Self)
        ensures
            s == default_settings(),
    {
        Settings { active_rate: 4000, inactive_rate: 500, notifications: true, poll_interval_ms: 2000 }
    }
}

// ---------------------------------------------------------------------------
// Command table
// ---------------------------------------------------------------------------
/// Whether no two entries share a key.
pub open spec fn distinct_keys(es: Seq<(Seq<char>, Seq<u8>)>) -> bool {
    forall|i: int, j: int| 0 <= i < j < es.len() ==> #[trigger] es[i].0 != #[trigger] es[j].0
}

/// The bytes stored under a key, if any.
pub open spec fn lookup(es: Seq<(Seq<char>, Seq<u8>)>, key: Seq<char>) -> Option<Seq<u8>>
    decreases es.len(),
{
    if es.len() == 0 {
        None
    } else if es[0].0 == key {
        Some(es[0].1)
    } else {
        lookup(es.drop_first(), key)
    }
}

/// The table after storing `bytes` under `key`: an entry with that key has
/// its bytes replaced in place, otherwise a new entry goes at the end.
pub open spec fn stored(es: Seq<(Seq<char>, Seq<u8>)>, key: Seq<char>, bytes: Seq<u8>) -> Seq<
    (Seq<char>, Seq<u8>),
> {
    if exists|i: int| 0 <= i < es.len() && es[i].0 == key {
        let i = choose|i: int| 0 <= i < es.len() && es[i].0 == key;
        es.update(i, (key, bytes))
    } else {
        es.push((key, bytes))
    }
}

/// Command bytes per rate, keyed by the rate in Hz as written in the file.
/// Each key occurs once.
#[derive(Debug)]
pub struct CommandTable {
    entries: Vec<(String, Vec<u8>)>,
}

impl View for CommandTable {
    type V = Seq<(Seq<char>, Seq<u8>)>;

    closed spec fn view(&self) -> Seq<(Seq<char>, Seq<u8>)> {
        self.entries@.map_values(|e: (String, Vec<u8>)| (e.0@, e.1@))
    }
}

/// A copy of a byte vector.
pub fn copy_bytes(v: &Vec<u8>) -> (r: Vec<u8>)
    ensures
        r@ == v@,
{
    let mut out: Vec<u8> = Vec::new();
    let mut i: usize = 0;
    while i < v.len()
        invariant
            i <= v@.len(),
            out@ == v@.take(i as int),
        decreases v@.len() - i,
    {
        out.push(v[i]);
        assert(out@ =~= v@.take(i + 1));
        i = i + 1;
    }
    assert(v@.take(v@.len() as int) =~= v@);
    out
}

impl Clone for CommandTable {
    fn clone(&self) -> (r: Self)
        ensures
            r@ == self@,
    {
        proof {
            use_type_invariant(self);
        }
        let mut entries: Vec<(String, Vec<u8>)> = Vec::new();
        let mut i: usize = 0;
        while i < self.entries.len()
            invariant
                i <= self.entries@.len(),
                entries@.len() == i,
                forall|k: int|
                    0 <= k < i ==> #[trigger] entries@[k].0@ == self.entries@[k].0@
                        && entries@[k].1@ == self.entries@[k].1@,
            decreases self.entries@.len() - i,
        {
            let key = self.entries[i].0.clone();
            let bytes = copy_bytes(&self.entries[i].1);
            entries.push((key, bytes));
            i = i + 1;
        }
        assert forall|a: int, b: int| 0 <= a < b < entries@.len() implies #[trigger] entries@[a].0@
            != #[trigger] entries@[b].0@ by {
            assert(self.entries@[a].0@ != self.entries@[b].0@);
        }
        let r = CommandTable { entries };
        assert(r@ =~= self@);
        r
    }
}

impl CommandTable {
    #[verifier::type_invariant]
    closed spec fn keys_unique(self) -> bool {
        forall|i: int, j: int|
            0 <= i < j < self.entries@.len() ==> #[trigger] self.entries@[i].0@
                != #[trigger] self.entries@[j].0@
    }

    /// An empty table.
    pub fn new() -> (t: Self)
        ensures
            t@ == Seq::<(Seq<char>, Seq<u8>)>::empty(),
    {
        let t = CommandTable { entries: Vec::new() };
        assert(t@ =~= Seq::<(Seq<char>, Seq<u8>)>::empty());
        t
    }

    /// The number of entries.
    pub fn len(&self) -> (n: usize)
        ensures
            n == self@.len(),
    {
        self.entries.len()
    }

    /// The key and bytes of entry `i`.
    pub fn entry(&self, i: usize) -> (r: (&String, &Vec<u8>))
        requires
            i < self@.len(),
        ensures
            r.0@ == self@[i as int].0,
            r.1@ == self@[i as int].1,
    {
        let e = &self.entries[i];
        (&e.0, &e.1)
    }

    /// Keys never repeat.
    pub fn keys_distinct(&self)
        ensures
            distinct_keys(self@),
    {
        proof {
            use_type_invariant(self);
            assert forall|i: int, j: int| 0 <= i < j < self@.len() implies #[trigger] self@[i].0
                != #[trigger] self@[j].0 by {
                assert(self@[i].0 == self.entries@[i].0@);
                assert(self@[j].0 == self.entries@[j].0@);
            }
        }
    }

    /// The bytes stored under `key`, if any.
    pub fn get(&self, key: &String) -> (r: Option<&Vec<u8>>)
        ensures
            match r {
                Some(b) => lookup(self@, key@) == Some(b@),
                None => lookup(self@, key@) is None,
            },
    {
        let n = self.entries.len();
        let mut i: usize = 0;
        assert(self@.skip(0) =~= self@);
        while i < n
            invariant
                n == self.entries@.len(),
                n == self@.len(),
                i <= n,
                lookup(self@, key@) == lookup(self@.skip(i as int), key@),
            decreases n - i,
        {
            assert(self@.skip(i as int)[0] == self@[i as int]);
            if self.entries[i].0 == *key {
                return Some(&self.entries[i].1);
            }
            assert(self@.skip(i as int).drop_first() =~= self@.skip(i + 1));
            i = i + 1;
        }
        None
    }

    /// Store `bytes` under `key`, replacing what was there.
    pub fn insert(&mut self, key: String, bytes: Vec<u8>)
        ensures
            final(self)@ == stored(old(self)@, key@, bytes@),
    {
        proof {
            use_type_invariant(&*self);
        }
        self.keys_distinct();
        let ghost es = self@;
        let ghost kv = key@;
        let ghost bv = bytes@;
        let n = self.entries.len();
        let mut i: usize = 0;
        while i < n
            invariant
                n == self.entries@.len(),
                es == self@,
                es.len() == n,
                kv == key@,
                bv == bytes@,
                es == old(self)@,
                distinct_keys(es),
                i <= n,
                forall|j: int| 0 <= j < i ==> es[j].0 != key@,
            decreases n - i,
        {
            assert(es[i as int].0 == self.entries@[i as int].0@);
            if self.entries[i].0 == key {
                assert(es[i as int].0 == kv);
                let mut entries: Vec<(String, Vec<u8>)> = Vec::new();
                std::mem::swap(&mut entries, &mut self.entries);
                entries.set(i, (key, bytes));
                assert forall|a: int, b: int| 0 <= a < b < entries@.len() implies #[trigger] entries@[a].0@
                    != #[trigger] entries@[b].0@ by {
                    assert(es[a].0 != es[b].0);
                    if a != i {
                        assert(entries@[a].0@ == es[a].0);
                    }
                    if b != i {
                        assert(entries@[b].0@ == es[b].0);
                    }
                }
                self.entries = entries;
                proof {
                    assert(es[i as int].0 == kv);
                    assert(0 <= i < es.len() && es[i as int].0 == kv);
                    let k = choose|k: int| 0 <= k < es.len() && es[k].0 == kv;
                    assert(k == i);
                    assert(self@ =~= es.update(i as int, (kv, bv)));
                    assert(self@ == stored(es, kv, bv));
                }
                return;
            }
            i = i + 1;
        }
        let mut entries: Vec<(String, Vec<u8>)> = Vec::new();
        std::mem::swap(&mut entries, &mut self.entries);
        entries.push((key, bytes));
        assert forall|a: int, b: int| 0 <= a < b < entries@.len() implies #[trigger] entries@[a].0@
            != #[trigger] entries@[b].0@ by {
            assert(es[a].0 == entries@[a].0@);
            if b < es.len() {
                assert(es[b].0 == entries@[b].0@);
            }
        }
        self.entries = entries;
        assert(self@ =~= es.push((key@, bytes@)));
    }
}

/// The device protocol. Defaults to the built in Model D2 Pro 4K reports and is
/// only ever read from disk when a `protocol.toml` exists.
#[derive(Debug, Clone)]
pub struct Protocol {
    /// USB vendor id. Glorious is 0x258A.
    pub vid: u16,
    /// USB product id. The Model D2 Pro 4K dongle enumerates as 0x2036.
    pub pid: u16,
    /// HID usage page of the vendor collection to open. 0 disables the filter.
    pub usage_page: u16,
    /// HID usage of the vendor collection to open. 0 disables the filter.
    pub usage: u16,
    /// Delivery method for the command bytes.
    pub method: Method,
    /// Force a report length by padding or truncating. 0 uses the device caps.
    pub report_length: usize,
    /// Command bytes per rate, keyed by the rate in Hz as a string.
    pub commands: CommandTable,
}

/// The rate code the Model D2 Pro 4K takes for a standard rate.
pub open spec fn builtin_code(rate: u32) -> u8 {
    if rate == 125 {
        0x08
    } else if rate == 250 {
        0x04
    } else if rate == 500 {
        0x02
    } else if rate == 1000 {
        0x01
    } else if rate == 2000 {
        0x20
    } else {
        0x40
    }
}

/// The captured polling rate report for one rate code: the report id, then
/// `00 00 02 03 01 0A 01` and the rate code twice. The device pads the rest
/// to its 65 byte report length.
pub open spec fn rate_report(code: u8) -> Seq<u8> {
    seq![0x00u8, 0x00u8, 0x00u8, 0x02u8, 0x03u8, 0x01u8, 0x0Au8, 0x01u8, code, code]
}

fn rate_report_exec(code: u8) -> (r: Vec<u8>)
    ensures
        r@ == rate_report(code),
{
    let r: Vec<u8> = vec![0x00, 0x00, 0x00, 0x02, 0x03, 0x01, 0x0A, 0x01, code, code];
    assert(r@ =~= rate_report(code));
    r
}

/// The built in command table: the standard rates in order, each keyed by
/// its decimal form.
pub open spec fn builtin_commands() -> Seq<(Seq<char>, Seq<u8>)> {
    standard_rates().map_values(|r: u32| (decimal(r as nat), rate_report(builtin_code(r))))
}

/// The built in protocol for the Model D2 Pro 4K.
pub open spec fn is_builtin_protocol(p: Protocol) -> bool {
    &&& p.vid == 0x258A
    &&& p.pid == 0x2036
    &&& p.usage_page == 0xFFFF
    &&& p.usage == 0
    &&& p.method == Method::Feature
    &&& p.report_length == 0
    &&& p.commands@ == builtin_commands()
}

impl Default for Protocol {
    fn default() -> (p: Self)
        ensures
            is_builtin_protocol(p),
    {
        let mut commands = CommandTable::new();
        let rs = rates();
        let mut i: usize = 0;
        while i < rs.len()
            invariant
                rs@ == standard_rates(),
                i <= rs@.len(),
                commands@ == builtin_commands().take(i as int),
            decreases rs@.len() - i,
        {
            let rate = rs[i];
            let code: u8 = if rate == 125 {
                0x08
            } else if rate == 250 {
                0x04
            } else if rate == 500 {
                0x02
            } else if rate == 1000 {
                0x01
            } else if rate == 2000 {
                0x20
            } else {
                0x40
            };
            let key = decimal_string(rate as u64);
            let bytes = rate_report_exec(code);
            proof {
                lemma_decimal_injective_standard(i as int);
                assert(!exists|k: int|
                    0 <= k < commands@.len() && commands@[k].0 == key@) by {
                    assert forall|k: int| 0 <= k < commands@.len() implies commands@[k].0
                        != key@ by {
                        assert(commands@[k] == builtin_commands()[k]);
                    }
                }
            }
            commands.insert(key, bytes);
            assert(commands@ =~= builtin_commands().take(i + 1));
            i = i + 1;
        }
        assert(builtin_commands().take(6) =~= builtin_commands());
        Protocol {
            vid: 0x258A,
            pid: 0x2036,
            usage_page: 0xFFFF,
            usage: 0,
            method: Method::Feature,
            report_length: 0,
            commands,
        }
    }
}

/// The standard rates are written with different keys.
proof fn lemma_decimal_injective_standard(i: int)
    requires
        0 <= i < 6,
    ensures
        forall|k: int|
            0 <= k < i ==> decimal(#[trigger] standard_rates()[k] as nat) != decimal(
                standard_rates()[i] as nat,
            ),
{
    assert forall|k: int| 0 <= k < i implies decimal(#[trigger] standard_rates()[k] as nat)
        != decimal(standard_rates()[i] as nat) by {
        if decimal(standard_rates()[k] as nat) == decimal(standard_rates()[i] as nat) {
            lemma_decimal_injective(standard_rates()[k] as nat, standard_rates()[i] as nat);
        }
    }
}

// ---------------------------------------------------------------------------
// Config
// ---------------------------------------------------------------------------
/// Everything the running app needs, assembled from the pieces above.
#[derive(Debug, Clone)]
pub struct Config {
    pub settings: Settings,
    /// Watched process names, already lowercased for cheap comparison.
    pub programs: Vec<String>,
    pub protocol: Protocol,
}

impl Default for Config {
    fn default() -> (c: Self)
        ensures
            c.settings == default_settings(),
            c.programs@.len() == 0,
            is_builtin_protocol(c.protocol),
    {
        Config { settings: Settings::default(), programs: Vec::new(), protocol: Protocol::default() }
    }
}

/// The command for a rate: the bytes stored under its decimal form, when
/// there are any.
pub open spec fn command_spec(es: Seq<(Seq<char>, Seq<u8>)>, rate: u32) -> Option<Seq<u8>> {
    match lookup(es, decimal(rate as nat)) {
        Some(b) => if b.len() > 0 {
            Some(b)
        } else {
            None
        },
        None => None,
    }
}

/// The rate a command key stands for: the `u32` it reads as, when the key is
/// exactly that rate written in decimal, the form `command_for` looks a rate
/// up under. Other keys, such as `0500` or `+500`, stand for no rate.
pub open spec fn key_rate(key: Seq<char>) -> Option<u32> {
    match parse_u32_spec(key) {
        Some(n) => if key == decimal(n as nat) {
            Some(n)
        } else {
            None
        },
        None => None,
    }
}

/// The rates the table defines, in table order: every key that stands for a
/// rate and holds at least one byte.
pub open spec fn defined_rates(es: Seq<(Seq<char>, Seq<u8>)>) -> Seq<u32>
    decreases es.len(),
{
    if es.len() == 0 {
        Seq::empty()
    } else {
        let rest = defined_rates(es.drop_last());
        let e = es.last();
        if e.1.len() > 0 && key_rate(e.0) is Some {
            rest.push(key_rate(e.0)->0)
        } else {
            rest
        }
    }
}

/// Whether a sequence of rates is in ascending order.
pub open spec fn ascending(s: Seq<u32>) -> bool {
    forall|i: int, j: int| 0 <= i <= j < s.len() ==> s[i] <= s[j]
}

/// Whether a sequence of rates is strictly ascending: low to high, no rate
/// twice.
pub open spec fn strictly_ascending(s: Seq<u32>) -> bool {
    forall|i: int, j: int| 0 <= i < j < s.len() ==> s[i] < s[j]
}

/// The order rates are listed in: low to high.
pub open spec fn rate_leq() -> spec_fn(u32, u32) -> bool {
    |a: u32, b: u32| a <= b
}

/// The rates the tray menu offers for a command table: the defined rates low
/// to high. A table that defines none offers none.
pub open spec fn menu_rates(es: Seq<(Seq<char>, Seq<u8>)>) -> Seq<u32> {
    defined_rates(es).sort_by(rate_leq())
}

/// Two ascending sequences holding the same rates are the same sequence.
pub proof fn lemma_ascending_unique(a: Seq<u32>, b: Seq<u32>)
    requires
        ascending(a),
        ascending(b),
        a.to_multiset() == b.to_multiset(),
    ensures
        a == b,
    decreases a.len(),
{
    a.to_multiset_ensures();
    b.to_multiset_ensures();
    if a.len() > 0 {
        assert(a.contains(a[0]));
        assert(a.to_multiset().count(a[0]) > 0);
        assert(b.to_multiset().count(a[0]) > 0);
        assert(b.contains(a[0]));
        assert(b.contains(b[0]));
        assert(b.to_multiset().count(b[0]) > 0);
        assert(a.to_multiset().count(b[0]) > 0);
        assert(a.contains(b[0]));
        let j = choose|j: int| 0 <= j < b.len() && b[j] == a[0];
        let k = choose|k: int| 0 <= k < a.len() && a[k] == b[0];
        assert(a[0] == b[0]);
        assert(a.remove(0) =~= a.drop_first());
        assert(b.remove(0) =~= b.drop_first());
        lemma_ascending_unique(a.drop_first(), b.drop_first());
        assert(a =~= b) by {
            assert forall|i: int| 0 <= i < a.len() implies a[i] == b[i] by {
                if i > 0 {
                    assert(a[i] == a.drop_first()[i - 1]);
                    assert(b[i] == b.drop_first()[i - 1]);
                }
            }
        }
    } else {
        assert(a =~= b);
    }
}

/// The menu rates are ascending and hold exactly the defined rates, each as
/// often.
pub proof fn lemma_menu_rates(es: Seq<(Seq<char>, Seq<u8>)>)
    ensures
        ascending(menu_rates(es)),
        menu_rates(es).to_multiset() == defined_rates(es).to_multiset(),
{
    let d = defined_rates(es);
    let leq = rate_leq();
    assert(vstd::relations::total_ordering(leq));
    d.lemma_sort_by_ensures(leq);
    let m = d.sort_by(leq);
    assert forall|i: int, j: int| 0 <= i <= j < m.len() implies m[i] <= m[j] by {
        if i < j {
            assert(leq(m[i], m[j]));
        }
    }
    d.to_multiset_ensures();
    m.to_multiset_ensures();
}

/// A key stands for a rate exactly when it is that rate written in decimal.
proof fn lemma_key_rate(key: Seq<char>, rate: u32)
    ensures
        key_rate(key) == Some(rate) <==> key == decimal(rate as nat),
{
    lemma_parse_decimal(rate);
}

/// How a lookup over the whole table splits at its last entry.
proof fn lemma_lookup_last(es: Seq<(Seq<char>, Seq<u8>)>, key: Seq<char>)
    requires
        es.len() > 0,
    ensures
        lookup(es, key) == (match lookup(es.drop_last(), key) {
            Some(b) => Some(b),
            None => if es.last().0 == key {
                Some(es.last().1)
            } else {
                None
            },
        }),
    decreases es.len(),
{
    if es.len() > 1 {
        assert(es.drop_last()[0] == es[0]);
        if es[0].0 != key {
            lemma_lookup_last(es.drop_first(), key);
            assert(es.drop_first().drop_last() =~= es.drop_last().drop_first());
        }
    } else {
        assert(es.drop_last().len() == 0);
        assert(es.drop_first().len() == 0);
        assert(lookup(es.drop_first(), key) is None);
        assert(lookup(es.drop_last(), key) is None);
    }
}

/// With the last entry set apart, the rest of a table with distinct keys
/// still has distinct keys.
proof fn lemma_distinct_keys_drop_last(es: Seq<(Seq<char>, Seq<u8>)>)
    requires
        distinct_keys(es),
        es.len() > 0,
    ensures
        distinct_keys(es.drop_last()),
        forall|i: int| 0 <= i < es.len() - 1 ==> #[trigger] es.drop_last()[i].0 != es.last().0,
{
    let rest = es.drop_last();
    assert forall|i: int, j: int| 0 <= i < j < rest.len() implies #[trigger] rest[i].0
        != #[trigger] rest[j].0 by {
        assert(rest[i] == es[i] && rest[j] == es[j]);
    }
    assert forall|i: int| 0 <= i < es.len() - 1 implies #[trigger] rest[i].0 != es.last().0 by {
        assert(rest[i] == es[i]);
        assert(es.last() == es[es.len() - 1]);
    }
}

/// No entry has the key: the lookup finds nothing.
proof fn lemma_lookup_absent(es: Seq<(Seq<char>, Seq<u8>)>, key: Seq<char>)
    requires
        forall|i: int| 0 <= i < es.len() ==> #[trigger] es[i].0 != key,
    ensures
        lookup(es, key) is None,
    decreases es.len(),
{
    if es.len() > 0 {
        assert(es[0].0 != key);
        assert forall|i: int| 0 <= i < es.drop_first().len() implies #[trigger] es.drop_first()[i].0
            != key by {
            assert(es.drop_first()[i] == es[i + 1]);
        }
        lemma_lookup_absent(es.drop_first(), key);
    }
}

/// A defined rate comes from an entry whose key is that rate in decimal.
proof fn lemma_defined_source(es: Seq<(Seq<char>, Seq<u8>)>, rate: u32)
    requires
        defined_rates(es).contains(rate),
    ensures
        exists|i: int| 0 <= i < es.len() && #[trigger] es[i].0 == decimal(rate as nat),
    decreases es.len(),
{
    let rest = es.drop_last();
    let e = es.last();
    if defined_rates(rest).contains(rate) {
        lemma_defined_source(rest, rate);
        let i = choose|i: int| 0 <= i < rest.len() && #[trigger] rest[i].0 == decimal(rate as nat);
        assert(es[i] == rest[i]);
    } else {
        assert(e.1.len() > 0 && key_rate(e.0) == Some(rate));
        lemma_key_rate(e.0, rate);
        assert(es[es.len() - 1] == e);
    }
}

/// A table with distinct keys defines each rate at most once.
proof fn lemma_defined_no_duplicates(es: Seq<(Seq<char>, Seq<u8>)>)
    requires
        distinct_keys(es),
    ensures
        defined_rates(es).no_duplicates(),
    decreases es.len(),
{
    if es.len() > 0 {
        let rest = es.drop_last();
        let e = es.last();
        lemma_distinct_keys_drop_last(es);
        lemma_defined_no_duplicates(rest);
        if e.1.len() > 0 && key_rate(e.0) is Some {
            let r = key_rate(e.0)->0;
            lemma_key_rate(e.0, r);
            if defined_rates(rest).contains(r) {
                lemma_defined_source(rest, r);
                let i = choose|i: int| 0 <= i < rest.len() && #[trigger] rest[i].0 == decimal(r as nat);
                assert(rest[i].0 != e.0);
            }
            let d = defined_rates(rest);
            assert forall|i: int, j: int|
                0 <= i < d.push(r).len() && 0 <= j < d.push(r).len() && i != j implies d.push(r)[i]
                != d.push(r)[j] by {
                if i == d.len() {
                    assert(d.contains(d[j]));
                } else if j == d.len() {
                    assert(d.contains(d[i]));
                }
            }
        }
    }
}

/// With distinct keys, a rate is defined exactly when it has a command.
proof fn lemma_defined_iff_command(es: Seq<(Seq<char>, Seq<u8>)>, rate: u32)
    requires
        distinct_keys(es),
    ensures
        defined_rates(es).contains(rate) <==> command_spec(es, rate) is Some,
    decreases es.len(),
{
    if es.len() > 0 {
        let k = decimal(rate as nat);
        let rest = es.drop_last();
        let e = es.last();
        lemma_distinct_keys_drop_last(es);
        lemma_lookup_last(es, k);
        lemma_key_rate(e.0, rate);
        lemma_defined_iff_command(rest, rate);
        if e.0 == k {
            assert forall|i: int| 0 <= i < rest.len() implies #[trigger] rest[i].0 != k by {}
            lemma_lookup_absent(rest, k);
            if !(e.1.len() > 0) {
                assert(defined_rates(es) == defined_rates(rest));
            } else {
                assert(defined_rates(es) == defined_rates(rest).push(rate));
                assert(defined_rates(es)[defined_rates(rest).len() as int] == rate);
            }
        } else {
            let d = defined_rates(rest);
            if e.1.len() > 0 && key_rate(e.0) is Some {
                let r = key_rate(e.0)->0;
                assert(r != rate);
                assert(defined_rates(es) == d.push(r));
                if d.contains(rate) {
                    let j = choose|j: int| 0 <= j < d.len() && d[j] == rate;
                    assert(d.push(r)[j] == rate);
                }
                if d.push(r).contains(rate) {
                    let j = choose|j: int| 0 <= j < d.push(r).len() && d.push(r)[j] == rate;
                    assert(j < d.len());
                    assert(d[j] == rate);
                }
            }
        }
    } else {
        assert(defined_rates(es).len() == 0);
    }
}

/// Sorts a vector of rates (`slice::sort_unstable`): the result is in
/// ascending order and holds the same rates, each as often as before.
#[verifier::external_body]
fn sort_rates(v: &mut Vec<u32>)
    ensures
        ascending(final(v)@),
        final(v)@.to_multiset() == old(v)@.to_multiset(),
{
    v.sort_unstable();
}

impl Config {
    /// Return the command bytes for a rate, if known and non empty.
    pub fn command_for(&self, rate: u32) -> (r: Option<&[u8]>)
        ensures
            match r {
                Some(b) => command_spec(self.protocol.commands@, rate) == Some(b@),
                None => command_spec(self.protocol.commands@, rate) is None,
            },
    {
        let key = decimal_string(rate as u64);
        match self.protocol.commands.get(&key) {
            Some(bytes) => {
                if bytes.len() > 0 {
                    Some(bytes.as_slice())
                } else {
                    None
                }
            },
            None => None,
        }
    }

    /// Rates the menu should offer: the standard list, minus any the current
    /// protocol has no command for, plus any extra the protocol does define.
    /// That is every rate with a command, each once, low to high.
    pub fn available_rates(&self) -> (r: Vec<u32>)
        ensures
            r@ == menu_rates(self.protocol.commands@),
            strictly_ascending(r@),
            forall|rate: u32| #[trigger] r@.contains(rate) <==> command_spec(self.protocol.commands@, rate) is Some,
    {
        let table = &self.protocol.commands;
        let ghost es = table@;
        let n = table.len();
        let mut found: Vec<u32> = Vec::new();
        let mut i: usize = 0;
        while i < n
            invariant
                n == es.len(),
                es == table@,
                i <= n,
                found@ == defined_rates(es.take(i as int)),
            decreases n - i,
        {
            let (key, bytes) = table.entry(i);
            assert(es.take(i + 1).drop_last() =~= es.take(i as int));
            assert(es.take(i + 1).last() == es[i as int]);
            if bytes.len() > 0 {
                match parse_u32(key.as_str()) {
                    Some(rate) => {
                        let written = decimal_string(rate as u64);
                        if *key == written {
                            found.push(rate);
                        }
                    },
                    None => {},
                }
            }
            i = i + 1;
        }
        assert(es.take(n as int) =~= es);
        sort_rates(&mut found);
        table.keys_distinct();
        proof {
            lemma_menu_rates(es);
            lemma_ascending_unique(found@, menu_rates(es));
            lemma_menu_offers_exactly_commands(es);
        }
        found
    }
}

/// The tray menu offers every rate with a command and no other, each once,
/// low to high: a rate appears in the menu exactly when `command_for` finds
/// bytes for it. A table whose keys do not repeat (as every `CommandTable`'s
/// do) is all this needs.
pub proof fn lemma_menu_offers_exactly_commands(es: Seq<(Seq<char>, Seq<u8>)>)
    requires
        distinct_keys(es),
    ensures
        strictly_ascending(menu_rates(es)),
        forall|rate: u32| #[trigger] menu_rates(es).contains(rate) <==> command_spec(es, rate) is Some,
{
    let m = menu_rates(es);
    let d = defined_rates(es);
    lemma_menu_rates(es);
    lemma_defined_no_duplicates(es);
    d.lemma_multiset_has_no_duplicates();
    m.to_multiset_ensures();
    d.to_multiset_ensures();
    m.lemma_multiset_has_no_duplicates_conv();
    assert forall|i: int, j: int| 0 <= i < j < m.len() implies m[i] < m[j] by {
        assert(m[i] <= m[j]);
        assert(m[i] != m[j]);
    }
    assert forall|rate: u32| #[trigger] m.contains(rate) <==> command_spec(es, rate) is Some by {
        lemma_defined_iff_command(es, rate);
        assert(m.contains(rate) <==> m.to_multiset().count(rate) > 0);
        assert(d.contains(rate) <==> d.to_multiset().count(rate) > 0);
    }
}

// ---------------------------------------------------------------------------
// Files
// ---------------------------------------------------------------------------
/// Whether a character separates path components on Windows.
pub open spec fn is_separator(c: char) -> bool {
    c == '\\' || c == '/'
}

/// `Path::join` of a relative file name on Windows: a `\\` goes between the
/// two unless the directory is empty, already ends in a separator, or is a
/// bare drive such as `C:`.
pub open spec fn path_join(dir: Seq<char>, name: Seq<char>) -> Seq<char> {
    if dir.len() == 0 || is_separator(dir.last()) || (dir.len() == 2 && dir[1] == ':' && (('a'
        <= dir[0] && dir[0] <= 'z') || ('A' <= dir[0] && dir[0] <= 'Z'))) {
        dir + name
    } else {
        dir + seq!['\\'] + name
    }
}

/// Joins a file name onto the directory that holds the executable.
pub fn join_path(dir: &str, name: &str) -> (r: String)
    ensures
        r@ == path_join(dir@, name@),
{
    let d = chars_of(dir);
    let n = d.len();
    let mut out = string_of(&d);
    let bare = n == 0 || d[n - 1] == '\\' || d[n - 1] == '/' || (n == 2 && d[1] == ':' && (('a'
        <= d[0] && d[0] <= 'z') || ('A' <= d[0] && d[0] <= 'Z')));
    if !bare {
        push_char(&mut out, '\\');
    }
    out.append(name);
    proof {
        if n > 0 {
            assert(d@.last() == d@[n - 1]);
        }
    }
    assert(out@ =~= path_join(dir@, name@));
    out
}

/// The process list, the one file a user is expected to edit.
pub fn process_list_path(dir: &str) -> (r: String)
    ensures
        r@ == path_join(dir@, "processlist.cfg"@),
{
    join_path(dir, "processlist.cfg")
}

/// The tray managed settings file.
pub fn settings_path(dir: &str) -> (r: String)
    ensures
        r@ == path_join(dir@, "settings.toml"@),
{
    join_path(dir, "settings.toml")
}

/// The optional protocol override, absent on a normal install.
pub fn protocol_path(dir: &str) -> (r: String)
    ensures
        r@ == path_join(dir@, "protocol.toml"@),
{
    join_path(dir, "protocol.toml")
}

/// Whether a trimmed line names a program: it is not blank and not a `#`
/// comment.
pub open spec fn names_program(line: Seq<char>) -> bool {
    line.len() > 0 && line[0] != '#'
}

/// The watched names of a sequence of lines: each trimmed, blank lines and
/// comments dropped, the rest lower cased, in order.
pub open spec fn program_names(ls: Seq<Seq<char>>) -> Seq<Seq<char>>
    decreases ls.len(),
{
    if ls.len() == 0 {
        Seq::empty()
    } else {
        let rest = program_names(ls.drop_last());
        let t = trim(ls.last());
        if names_program(t) {
            rest.push(lower(t))
        } else {
            rest
        }
    }
}

/// What a process list file says: the names of its lines.
pub open spec fn process_list(text: Seq<char>) -> Seq<Seq<char>> {
    program_names(lines(text))
}

/// The name one line contributes, if any.
fn line_name(line: &Vec<char>) -> (r: Option<String>)
    ensures
        match r {
            Some(s) => names_program(trim(line@)) && s@ == lower(trim(line@)),
            None => !names_program(trim(line@)),
        },
{
    let t = trim_chars(line);
    if t.len() == 0 || t[0] == '#' {
        return None;
    }
    let mut out = String::new();
    let mut i: usize = 0;
    while i < t.len()
        invariant
            i <= t@.len(),
            t@ == trim(line@),
            out@ == lower(t@.take(i as int)),
        decreases t@.len() - i,
    {
        let c = lower_char_exec(t[i]);
        push_char(&mut out, c);
        assert(out@ =~= lower(t@.take(i + 1)));
        i = i + 1;
    }
    assert(t@.take(t@.len() as int) =~= t@);
    Some(out)
}

/// Every watched name is a program name as written in the list, trimmed and
/// lower cased: not empty, not a comment, no white space at either end, and
/// no upper case ASCII letter, so matching it is a plain comparison.
pub proof fn lemma_program_names_shape(ls: Seq<Seq<char>>)
    ensures
        forall|k: int|
            0 <= k < program_names(ls).len() ==> {
                let n = #[trigger] program_names(ls)[k];
                &&& names_program(n)
                &&& is_lower(n)
                &&& !is_space(n[0])
                &&& !is_space(n.last())
            },
    decreases ls.len(),
{
    if ls.len() > 0 {
        lemma_program_names_shape(ls.drop_last());
        let t = trim(ls.last());
        if names_program(t) {
            lemma_trim_shape(ls.last());
            lemma_lower_is_lower(t);
            let n = lower(t);
            assert(n[0] == lower_char(t[0]));
            assert(n.last() == lower_char(t.last()));
            let rest = program_names(ls.drop_last());
            assert forall|k: int| 0 <= k < program_names(ls).len() implies {
                let m = #[trigger] program_names(ls)[k];
                &&& names_program(m)
                &&& is_lower(m)
                &&& !is_space(m[0])
                &&& !is_space(m.last())
            } by {
                if k < rest.len() {
                    assert(program_names(ls)[k] == rest[k]);
                }
            }
        }
    }
}

proof fn lemma_program_names_push(ls: Seq<Seq<char>>, l: Seq<char>)
    ensures
        program_names(ls.push(l)) == (if names_program(trim(l)) {
            program_names(ls).push(lower(trim(l)))
        } else {
            program_names(ls)
        }),
{
    assert(ls.push(l).drop_last() =~= ls);
}

/// Names from lines without `\n` hold no `\n` either.
proof fn lemma_program_names_no_newline(ls: Seq<Seq<char>>)
    requires
        forall|k: int| 0 <= k < ls.len() ==> no_newline(#[trigger] ls[k]),
    ensures
        forall|k: int| 0 <= k < program_names(ls).len() ==> no_newline(#[trigger] program_names(ls)[k]),
    decreases ls.len(),
{
    if ls.len() > 0 {
        let front = ls.drop_last();
        assert forall|k: int| 0 <= k < front.len() implies no_newline(#[trigger] front[k]) by {
            assert(front[k] == ls[k]);
        }
        lemma_program_names_no_newline(front);
        assert(no_newline(ls.last())) by {
            assert(ls.last() == ls[ls.len() - 1]);
        }
        lemma_trim_no_newline(ls.last());
        lemma_lower_no_newline(trim(ls.last()));
        let rest = program_names(front);
        assert forall|k: int| 0 <= k < program_names(ls).len() implies no_newline(
            #[trigger] program_names(ls)[k],
        ) by {
            if k < rest.len() {
                assert(program_names(ls)[k] == rest[k]);
            }
        }
    }
}

/// The lines of a text hold no `\n`.
proof fn lemma_lines_no_newline(text: Seq<char>)
    ensures
        forall|k: int| 0 <= k < lines(text).len() ==> no_newline(#[trigger] lines(text)[k]),
{
    lemma_split_state_no_newline(text);
    let (done, cur) = split_state(text);
    let ended = done.map_values(|l: Seq<char>| strip_cr(l));
    assert forall|k: int| 0 <= k < ended.len() implies no_newline(#[trigger] ended[k]) by {
        assert(no_newline(done[k]));
        assert(ended[k] == strip_cr(done[k]));
        assert forall|i: int| 0 <= i < ended[k].len() implies #[trigger] ended[k][i] != '\n' by {
            assert(ended[k][i] == done[k][i]);
        }
    }
    if cur.len() > 0 {
        assert forall|k: int| 0 <= k < ended.push(cur).len() implies no_newline(
            #[trigger] ended.push(cur)[k],
        ) by {
            if k < ended.len() {
                assert(ended.push(cur)[k] == ended[k]);
            }
        }
    }
}

/// Lines that are already watched names (trimmed, not comments, lower
/// cased) are read back as themselves.
proof fn lemma_program_names_fixed(ns: Seq<Seq<char>>)
    requires
        forall|k: int|
            0 <= k < ns.len() ==> {
                let n = #[trigger] ns[k];
                &&& names_program(n)
                &&& is_lower(n)
                &&& !is_space(n[0])
                &&& !is_space(n.last())
            },
    ensures
        program_names(ns) == ns,
    decreases ns.len(),
{
    if ns.len() > 0 {
        let front = ns.drop_last();
        assert forall|k: int| 0 <= k < front.len() implies {
            let n = #[trigger] front[k];
            &&& names_program(n)
            &&& is_lower(n)
            &&& !is_space(n[0])
            &&& !is_space(n.last())
        } by {
            assert(front[k] == ns[k]);
        }
        lemma_program_names_fixed(front);
        let n = ns.last();
        assert(n == ns[ns.len() - 1]);
        lemma_trim_unchanged(n);
        assert(lower(n) =~= n);
        assert(front.push(n) =~= ns);
    }
}

/// Writing a parsed list back out, one name per line, and parsing that text
/// again gives the same list: parsing is idempotent.
pub proof fn lemma_reparse(text: Seq<char>)
    ensures
        process_list(join(process_list(text), seq!['\n'])) == process_list(text),
{
    let ns = process_list(text);
    let j = join(ns, seq!['\n']);
    lemma_program_names_shape(lines(text));
    lemma_lines_no_newline(text);
    lemma_program_names_no_newline(lines(text));
    if ns.len() == 0 {
        assert(j.len() == 0);
        assert(lines(j) =~= Seq::<Seq<char>>::empty());
    } else {
        lemma_split_join(ns);
        let front = ns.drop_last();
        let ended = front.map_values(|l: Seq<char>| strip_cr(l));
        assert forall|k: int| 0 <= k < front.len() implies #[trigger] ended[k] == front[k] by {
            assert(front[k] == ns[k]);
            assert(!is_space(ns[k].last()));
        }
        assert(ended =~= front);
        assert(ns.last() == ns[ns.len() - 1]);
        assert(lines(j) =~= ns);
    }
    lemma_program_names_fixed(ns);
}

/// Parse a process list. Blank lines and `#` comments are skipped, and names
/// are lowercased so matching is a plain comparison.
pub fn parse_process_list(text: &str) -> (r: Vec<String>)
    ensures
        r.deep_view() == process_list(text@),
{
    let v = chars_of(text);
    let n = v.len();
    let mut out: Vec<String> = Vec::new();
    let mut cur: Vec<char> = Vec::new();
    let mut i: usize = 0;
    while i < n
        invariant
            n == v@.len(),
            i <= n,
            cur@ == split_state(v@.take(i as int)).1,
            out.deep_view() == program_names(
                split_state(v@.take(i as int)).0.map_values(|l: Seq<char>| strip_cr(l)),
            ),
        decreases n - i,
    {
        let c = v[i];
        let ghost pre = v@.take(i as int);
        assert(v@.take(i + 1).drop_last() =~= pre);
        assert(v@.take(i + 1).last() == c);
        let ghost done = split_state(pre).0;
        if c == '\n' {
            if cur.len() > 0 && cur[cur.len() - 1] == '\r' {
                cur.pop();
            }
            assert(cur@ == strip_cr(split_state(pre).1));
            let name = line_name(&cur);
            let ghost ended = done.map_values(|l: Seq<char>| strip_cr(l));
            assert(done.push(split_state(pre).1).map_values(|l: Seq<char>| strip_cr(l))
                =~= ended.push(cur@));
            proof {
                lemma_program_names_push(ended, cur@);
            }
            match name {
                Some(s) => {
                    out.push(s);
                },
                None => {},
            }
            assert(out.deep_view() =~= program_names(ended.push(cur@)));
            cur = Vec::new();
        } else {
            cur.push(c);
        }
        i = i + 1;
    }
    assert(v@.take(n as int) =~= v@);
    let ghost done = split_state(v@).0;
    let ghost ended = done.map_values(|l: Seq<char>| strip_cr(l));
    if cur.len() > 0 {
        let name = line_name(&cur);
        proof {
            lemma_program_names_push(ended, cur@);
        }
        match name {
            Some(s) => {
                out.push(s);
            },
            None => {},
        }
        assert(out.deep_view() =~= program_names(ended.push(cur@)));
    }
    out
}

/// The comment that heads the settings file the tray menu writes.
pub const SETTINGS_HEADER: &'static str = "# Written by the tray menu. Set these from the tray icon rather than\n# by hand. The programs to watch live in processlist.cfg.\n\n";

/// The text of the settings file: the header, then the encoded settings.
pub fn settings_file_text(body: &str) -> (r: String)
    ensures
        r@ == SETTINGS_HEADER@ + body@,
{
    let mut out = String::new();
    out.append(SETTINGS_HEADER);
    out.append(body);
    assert(out@ =~= SETTINGS_HEADER@ + body@);
    out
}

/// What reading and decoding one configuration file gave.
#[derive(Debug)]
pub enum Parsed<T> {
    /// The file is not there.
    Absent,
    /// The file is there but could not be read; why.
    Unreadable(String),
    /// The file decoded to this value.
    Valid(T),
    /// The file is there but did not decode; the decoder's message.
    Invalid(String),
}

/// The problem reported for a file that did not decode.
pub open spec fn invalid_problem(file: Seq<char>, message: Seq<char>) -> Seq<char> {
    file + " is not valid: "@ + message
}

/// The problem reported for a file that is there but could not be read.
pub open spec fn unreadable_problem(file: Seq<char>, message: Seq<char>) -> Seq<char> {
    file + " could not be read: "@ + message
}

/// The settings in effect after reading the settings file.
pub open spec fn settings_in_effect(p: Parsed<Settings>) -> Settings {
    match p {
        Parsed::Valid(s) => s,
        _ => default_settings(),
    }
}

/// The problem, if any, that reading one file gave.
pub open spec fn file_problem<T>(file: Seq<char>, p: Parsed<T>) -> Seq<Seq<char>> {
    match p {
        Parsed::Invalid(e) => seq![invalid_problem(file, e@)],
        Parsed::Unreadable(e) => seq![unreadable_problem(file, e@)],
        _ => Seq::empty(),
    }
}

/// The problem, if any, that reading the process list gave.
pub open spec fn list_problem(list: Result<String, String>) -> Seq<Seq<char>> {
    match list {
        Ok(_) => Seq::empty(),
        Err(e) => seq![unreadable_problem("processlist.cfg"@, e@)],
    }
}

/// The problems reported, in order: the settings file, the process list, then
/// the protocol file.
pub open spec fn load_problems(
    settings: Parsed<Settings>,
    list: Result<String, String>,
    protocol: Parsed<Protocol>,
) -> Seq<Seq<char>> {
    file_problem("settings.toml"@, settings) + list_problem(list) + file_problem(
        "protocol.toml"@,
        protocol,
    )
}

fn problem_message(file: &str, what: &str, message: &String) -> (r: String)
    ensures
        r@ == file@ + what@ + message@,
{
    let mut out = String::new();
    out.append(file);
    out.append(what);
    out.append(message.as_str());
    assert(out@ =~= file@ + what@ + message@);
    out
}

/// Assemble the configuration from what the three files gave.
///
/// This never fails outright. Anything missing or malformed falls back to a
/// default so the tray icon always appears, and the trouble is returned
/// alongside so the caller can mention it. `list` is the text of the process
/// list, or why it could not be read. A file that is simply not there is no
/// trouble; one that is there but cannot be read or decoded is.
pub fn load_from(
    settings: Parsed<Settings>,
    list: Result<String, String>,
    protocol: Parsed<Protocol>,
) -> (r: (Config, Vec<String>))
    ensures
        r.0.settings == settings_in_effect(settings),
        r.0.programs.deep_view() == (match list {
            Ok(t) => process_list(t@),
            Err(_) => Seq::empty(),
        }),
        match protocol {
            Parsed::Valid(p) => r.0.protocol == p,
            _ => is_builtin_protocol(r.0.protocol),
        },
        r.1.deep_view() == load_problems(settings, list, protocol),
{
    let mut problems: Vec<String> = Vec::new();
    let s = match &settings {
        Parsed::Valid(s) => *s,
        Parsed::Invalid(e) => {
            problems.push(problem_message("settings.toml", " is not valid: ", e));
            Settings::default()
        },
        Parsed::Unreadable(e) => {
            problems.push(problem_message("settings.toml", " could not be read: ", e));
            Settings::default()
        },
        Parsed::Absent => Settings::default(),
    };
    assert(problems.deep_view() =~= file_problem("settings.toml"@, settings));
    let programs = match &list {
        Ok(t) => parse_process_list(t.as_str()),
        Err(e) => {
            problems.push(problem_message("processlist.cfg", " could not be read: ", e));
            let v: Vec<String> = Vec::new();
            assert(v.deep_view() =~= Seq::<Seq<char>>::empty());
            v
        },
    };
    assert(problems.deep_view() =~= file_problem("settings.toml"@, settings) + list_problem(list));
    let ghost before = problems.deep_view();
    let p = match protocol {
        Parsed::Valid(p) => p,
        Parsed::Invalid(e) => {
            problems.push(problem_message("protocol.toml", " is not valid: ", &e));
            Protocol::default()
        },
        Parsed::Unreadable(e) => {
            problems.push(problem_message("protocol.toml", " could not be read: ", &e));
            Protocol::default()
        },
        Parsed::Absent => Protocol::default(),
    };
    assert(problems.deep_view() =~= load_problems(settings, list, protocol));
    (Config { settings: s, programs, protocol: p }, problems)
}

} // verus!
