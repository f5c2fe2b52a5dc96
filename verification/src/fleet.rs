//! Fleet registry: the named remote targets ("yachts") an operator moors
//! to, with the exclusion pattern list each deployment shares. Loading and
//! saving the registry file is the caller's side; the rules — unique names,
//! known adapter kinds — live here.

use vstd::prelude::*;

verus! {

/// The kind of application a yacht runs.
#[derive(Clone, Copy, Debug, PartialEq, Eq, Structural)]
pub enum Adapter {
    WordPress,
    Drupal,
    Moodle,
    Joomla,
    Custom,
}

/// One remote target.
pub struct Yacht {
    pub name: String,
    pub ip: String,
    pub domain: String,
    pub ssh_user: String,
    pub ssh_port: u16,
    pub adapter: Adapter,
    pub enabled: bool,
    pub tags: Vec<String>,
}

impl Yacht {
    /// A fresh yacht with the given identity and default connection
    /// settings: root over port 22, the custom adapter, enabled, untagged.
    pub fn new(name: &str, ip: &str, domain: &str) -> (y: Yacht)
        ensures
            y.name@ == name@,
            y.ip@ == ip@,
            y.domain@ == domain@,
            y.ssh_user@ == "root"@,
            y.ssh_port == 22u16,
            y.adapter == Adapter::Custom,
            y.enabled == true,
            y.tags@.len() == 0,
    {
        Yacht {
            name: name.to_owned(),
            ip: ip.to_owned(),
            domain: domain.to_owned(),
            ssh_user: String::from_str("root"),
            ssh_port: 22,
            adapter: Adapter::Custom,
            enabled: true,
            tags: Vec::new(),
        }
    }
}

/// The registry: yachts by name, plus the exclusion patterns every sync
/// and verification pass of this fleet applies.
pub struct Fleet {
    pub yachts: Vec<Yacht>,
    pub sync_excludes: Vec<String>,
}

/// Some yacht of the list carries this name.
pub open spec fn has_yacht(yachts: Seq<Yacht>, name: Seq<char>) -> bool {
    exists|i: int| 0 <= i < yachts.len() && (#[trigger] yachts[i]).name@ == name
}

/// The first index carrying this name.
pub open spec fn first_with_name(yachts: Seq<Yacht>, name: Seq<char>) -> int
    decreases yachts.len(),
{
    if yachts.len() == 0 {
        0
    } else if yachts[0].name@ == name {
        0
    } else {
        1 + first_with_name(yachts.drop_first(), name)
    }
}

impl Fleet {
    /// An empty registry.
    pub fn new() -> (f: Fleet)
        ensures
            f.yachts@.len() == 0,
            f.sync_excludes@.len() == 0,
    {
        Fleet { yachts: Vec::new(), sync_excludes: Vec::new() }
    }

    /// The yacht with this name, if the registry holds one.
    pub fn get_yacht(&self, name: &str) -> (r: Option<&Yacht>)
        ensures
            match r {
                Some(y) => has_yacht(self.yachts@, name@) && y.name@ == name@,
                None => !has_yacht(self.yachts@, name@),
            },
    {
        let n = self.yachts.len();
        let mut i: usize = 0;
        while i < n
            invariant
                i <= n,
                n == self.yachts@.len(),
                forall|q: int| 0 <= q < i ==> (#[trigger] self.yachts@[q]).name@ != name@,
            decreases n - i,
        {
            if crate::pattern::str_equal(self.yachts[i].name.as_str(), name) {
                return Some(&self.yachts[i]);
            }
            i = i + 1;
        }
        None
    }
}

/// What can go wrong maintaining the registry.
#[derive(Clone, Copy, Debug, PartialEq, Eq, Structural)]
pub enum FleetError {
    /// A yacht with this name is already registered.
    YachtExists,
    /// No yacht with this name is registered.
    YachtNotFound,
    /// The adapter kind named is not a known one.
    UnknownAdapter,
}

/// ASCII lowercase of one character.
pub open spec fn lower_char(c: char) -> char {
    if c == 'A' {
        'a'
    } else if c == 'B' {
        'b'
    } else if c == 'C' {
        'c'
    } else if c == 'D' {
        'd'
    } else if c == 'E' {
        'e'
    } else if c == 'F' {
        'f'
    } else if c == 'G' {
        'g'
    } else if c == 'H' {
        'h'
    } else if c == 'I' {
        'i'
    } else if c == 'J' {
        'j'
    } else if c == 'K' {
        'k'
    } else if c == 'L' {
        'l'
    } else if c == 'M' {
        'm'
    } else if c == 'N' {
        'n'
    } else if c == 'O' {
        'o'
    } else if c == 'P' {
        'p'
    } else if c == 'Q' {
        'q'
    } else if c == 'R' {
        'r'
    } else if c == 'S' {
        's'
    } else if c == 'T' {
        't'
    } else if c == 'U' {
        'u'
    } else if c == 'V' {
        'v'
    } else if c == 'W' {
        'w'
    } else if c == 'X' {
        'x'
    } else if c == 'Y' {
        'y'
    } else if c == 'Z' {
        'z'
    } else {
        c
    }
}

/// ASCII lowercase of one character, executable.
pub fn lower_char_exec(c: char) -> (r: char)
    ensures
        r == lower_char(c),
{
    if c == 'A' {
        'a'
    } else if c == 'B' {
        'b'
    } else if c == 'C' {
        'c'
    } else if c == 'D' {
        'd'
    } else if c == 'E' {
        'e'
    } else if c == 'F' {
        'f'
    } else if c == 'G' {
        'g'
    } else if c == 'H' {
        'h'
    } else if c == 'I' {
        'i'
    } else if c == 'J' {
        'j'
    } else if c == 'K' {
        'k'
    } else if c == 'L' {
        'l'
    } else if c == 'M' {
        'm'
    } else if c == 'N' {
        'n'
    } else if c == 'O' {
        'o'
    } else if c == 'P' {
        'p'
    } else if c == 'Q' {
        'q'
    } else if c == 'R' {
        'r'
    } else if c == 'S' {
        's'
    } else if c == 'T' {
        't'
    } else if c == 'U' {
        'u'
    } else if c == 'V' {
        'v'
    } else if c == 'W' {
        'w'
    } else if c == 'X' {
        'x'
    } else if c == 'Y' {
        'y'
    } else if c == 'Z' {
        'z'
    } else {
        c
    }
}

/// ASCII lowercase of a character sequence.
pub open spec fn lower(s: Seq<char>) -> Seq<char> {
    s.map_values(|c: char| lower_char(c))
}

/// The lowercased string equals the candidate.
fn lowered_equals(s: &str, t: &str) -> (r: bool)
    ensures
        r == (lower(s@) == t@),
{
    let sn = s.unicode_len();
    let tn = t.unicode_len();
    if sn != tn {
        assert(lower(s@) != t@) by {
            assert(lower(s@).len() == s@.len());
        }
        return false;
    }
    let mut i: usize = 0;
    while i < sn
        invariant
            i <= sn,
            sn == s@.len(),
            sn == t@.len(),
            forall|q: int| 0 <= q < i ==> lower(s@)[q] == t@[q],
        decreases sn - i,
    {
        if lower_char_exec(s.get_char(i)) != t.get_char(i) {
            assert(lower(s@)[i as int] != t@[i as int]);
            return false;
        }
        i = i + 1;
    }
    assert(lower(s@) =~= t@);
    true
}

/// The adapter kind a (case-insensitive) name denotes, if any.
pub open spec fn spec_parse_adapter(s: Seq<char>) -> Option<Adapter> {
    if lower(s) == "wordpress"@ {
        Some(Adapter::WordPress)
    } else if lower(s) == "drupal"@ {
        Some(Adapter::Drupal)
    } else if lower(s) == "moodle"@ {
        Some(Adapter::Moodle)
    } else if lower(s) == "joomla"@ {
        Some(Adapter::Joomla)
    } else if lower(s) == "custom"@ {
        Some(Adapter::Custom)
    } else {
        None
    }
}

/// The adapter kind a name denotes, case-insensitively.
pub fn parse_adapter(s: &str) -> (r: Option<Adapter>)
    ensures
        r == spec_parse_adapter(s@),
{
    if lowered_equals(s, "wordpress") {
        Some(Adapter::WordPress)
    } else if lowered_equals(s, "drupal") {
        Some(Adapter::Drupal)
    } else if lowered_equals(s, "moodle") {
        Some(Adapter::Moodle)
    } else if lowered_equals(s, "joomla") {
        Some(Adapter::Joomla)
    } else if lowered_equals(s, "custom") {
        Some(Adapter::Custom)
    } else {
        None
    }
}

/// Register a new yacht.
///
/// Refused when the name is taken or the adapter kind unknown; otherwise
/// the yacht is appended with the given identity, the named adapter and
/// default connection settings, and nothing else changes.
pub fn add_yacht(fleet: &mut Fleet, name: &str, ip: &str, domain: &str, adapter: &str) -> (r:
    Result<(), FleetError>)
    ensures
        has_yacht(old(fleet).yachts@, name@) ==> r == Err::<(), FleetError>(
            FleetError::YachtExists,
        ) && final(fleet).yachts@ == old(fleet).yachts@,
        !has_yacht(old(fleet).yachts@, name@) && spec_parse_adapter(adapter@) is None ==> r
            == Err::<(), FleetError>(FleetError::UnknownAdapter) && final(fleet).yachts@ == old(
            fleet,
        ).yachts@,
        !has_yacht(old(fleet).yachts@, name@) && spec_parse_adapter(adapter@) is Some ==> {
            &&& r == Ok::<(), FleetError>(())
            &&& final(fleet).yachts@.len() == old(fleet).yachts@.len() + 1
            &&& final(fleet).yachts@.drop_last() == old(fleet).yachts@
            &&& final(fleet).yachts@.last().name@ == name@
            &&& final(fleet).yachts@.last().ip@ == ip@
            &&& final(fleet).yachts@.last().domain@ == domain@
            &&& final(fleet).yachts@.last().adapter == spec_parse_adapter(adapter@).unwrap()
            &&& final(fleet).yachts@.last().enabled
        },
        final(fleet).sync_excludes@ == old(fleet).sync_excludes@,
{
    if fleet.get_yacht(name).is_some() {
        return Err(FleetError::YachtExists);
    }
    let adapter_type = match parse_adapter(adapter) {
        Some(a) => a,
        None => {
            return Err(FleetError::UnknownAdapter);
        },
    };
    let mut yacht = Yacht::new(name, ip, domain);
    yacht.adapter = adapter_type;
    fleet.yachts.push(yacht);
    proof {
        assert(final(fleet).yachts@.drop_last() =~= old(fleet).yachts@);
    }
    Ok(())
}

/// Strike a yacht from the registry.
///
/// Refused when no yacht carries the name; otherwise the first entry with
/// the name leaves and everything else stays in place.
pub fn remove_yacht(fleet: &mut Fleet, name: &str) -> (r: Result<(), FleetError>)
    ensures
        !has_yacht(old(fleet).yachts@, name@) ==> r == Err::<(), FleetError>(
            FleetError::YachtNotFound,
        ) && final(fleet).yachts@ == old(fleet).yachts@,
        has_yacht(old(fleet).yachts@, name@) ==> {
            &&& r == Ok::<(), FleetError>(())
            &&& {
                let k = first_with_name(old(fleet).yachts@, name@);
                &&& 0 <= k < old(fleet).yachts@.len()
                &&& old(fleet).yachts@[k].name@ == name@
                &&& final(fleet).yachts@ == old(fleet).yachts@.remove(k)
            }
        },
        final(fleet).sync_excludes@ == old(fleet).sync_excludes@,
{
    let n = fleet.yachts.len();
    let mut i: usize = 0;
    while i < n
        invariant
            i <= n,
            n == fleet.yachts@.len(),
            *fleet == *old(fleet),
            forall|q: int| 0 <= q < i ==> (#[trigger] fleet.yachts@[q]).name@ != name@,
        decreases n - i,
    {
        if crate::pattern::str_equal(fleet.yachts[i].name.as_str(), name) {
            proof {
                lemma_first_with_name(fleet.yachts@, name@, i as int);
            }
            fleet.yachts.remove(i);
            return Ok(());
        }
        i = i + 1;
    }
    Err(FleetError::YachtNotFound)
}

/// The first index whose entry carries the name, pinned down.
proof fn lemma_first_with_name(yachts: Seq<Yacht>, name: Seq<char>, i: int)
    requires
        0 <= i < yachts.len(),
        yachts[i].name@ == name,
        forall|q: int| 0 <= q < i ==> (#[trigger] yachts[q]).name@ != name,
    ensures
        first_with_name(yachts, name) == i,
    decreases yachts.len(),
{
    if i > 0 {
        assert(yachts[0].name@ != name);
        assert(yachts.drop_first()[i - 1].name@ == name);
        assert(forall|q: int|
            0 <= q < i - 1 ==> (#[trigger] yachts.drop_first()[q]).name@ != name);
        lemma_first_with_name(yachts.drop_first(), name, i - 1);
    }
}

} // verus!
