//! Coordinates, road classes, surfaces and speeds.
use vstd::prelude::*;

verus! {

/// One tenth of a degree in units of 1e-7 degrees.
pub const TENTH_DEGREE: i64 = 1_000_000;

/// `v / 10^6` rounded to the nearest integer, halves away from zero: the
/// tenth-of-a-degree cell of a fixed-point angle.
pub open spec fn round_to_tenth(v: int) -> int {
    if v >= 0 {
        (v + 500_000) / 1_000_000
    } else {
        -((-v + 500_000) / 1_000_000)
    }
}

/// A latitude/longitude pair in units of 1e-7 degrees.
#[derive(Debug, Clone, Copy, PartialEq, Eq, Structural)]
pub struct Coordinates {
    pub lat: i32,
    pub lon: i32,
}

impl Coordinates {
    /// The tenth-of-a-degree cell that holds these coordinates.
    pub open spec fn cell(self) -> (int, int) {
        (round_to_tenth(self.lat as int), round_to_tenth(self.lon as int))
    }

    pub fn new(lat: i32, lon: i32) -> (r: Self)
        ensures
            r.lat == lat,
            r.lon == lon,
    {
        Self { lat, lon }
    }

    pub fn lat_rounded(&self) -> (r: i32)
        ensures
            r == round_to_tenth(self.lat as int),
    {
        round_fixed(self.lat)
    }

    pub fn lon_rounded(&self) -> (r: i32)
        ensures
            r == round_to_tenth(self.lon as int),
    {
        round_fixed(self.lon)
    }

    /// Whether both coordinates fall into the same tenth-of-a-degree cell.
    pub fn same_cell(&self, other: &Self) -> (r: bool)
        ensures
            r == (self.cell() == other.cell()),
    {
        self.lat_rounded() == other.lat_rounded() && self.lon_rounded() == other.lon_rounded()
    }
}

fn round_fixed(v: i32) -> (r: i32)
    ensures
        r == round_to_tenth(v as int),
{
    let w = v as i64;
    let r = if w >= 0 {
        (w + 500_000) / TENTH_DEGREE
    } else {
        -((-w + 500_000) / TENTH_DEGREE)
    };
    r as i32
}

/// Road classes, from motorways down to foot and cycle paths.
#[derive(Debug, Clone, Copy, PartialEq, Eq, Structural, Hash)]
pub enum Highway {
    Motorway,
    Trunk,
    Primary,
    Secondary,
    Tertiary,
    Unclassified,
    Residential,
    MotorwayLink,
    TrunkLink,
    PrimaryLink,
    SecondaryLink,
    TertiaryLink,
    LivingStreet,
    Service,
    Pedestrian,
    Track,
    Road,
    Footway,
    Steps,
    Path,
    Cycleway,
}

/// Default speed in km/h of a road class without an explicit speed limit.
pub open spec fn default_speed_of(h: Highway) -> u8 {
    match h {
        Highway::Motorway | Highway::Trunk => 120,
        Highway::Primary | Highway::Secondary | Highway::Tertiary => 100,
        Highway::MotorwayLink | Highway::TrunkLink => 60,
        Highway::Unclassified | Highway::PrimaryLink | Highway::SecondaryLink
        | Highway::TertiaryLink => 50,
        Highway::LivingStreet => 5,
        _ => 30,
    }
}

/// The road class named by an OSM `highway` tag value (snake case).
pub open spec fn highway_of(s: Seq<char>) -> Option<Highway> {
    if s == "motorway"@ {
        Some(Highway::Motorway)
    } else if s == "trunk"@ {
        Some(Highway::Trunk)
    } else if s == "primary"@ {
        Some(Highway::Primary)
    } else if s == "secondary"@ {
        Some(Highway::Secondary)
    } else if s == "tertiary"@ {
        Some(Highway::Tertiary)
    } else if s == "unclassified"@ {
        Some(Highway::Unclassified)
    } else if s == "residential"@ {
        Some(Highway::Residential)
    } else if s == "motorway_link"@ {
        Some(Highway::MotorwayLink)
    } else if s == "trunk_link"@ {
        Some(Highway::TrunkLink)
    } else if s == "primary_link"@ {
        Some(Highway::PrimaryLink)
    } else if s == "secondary_link"@ {
        Some(Highway::SecondaryLink)
    } else if s == "tertiary_link"@ {
        Some(Highway::TertiaryLink)
    } else if s == "living_street"@ {
        Some(Highway::LivingStreet)
    } else if s == "service"@ {
        Some(Highway::Service)
    } else if s == "pedestrian"@ {
        Some(Highway::Pedestrian)
    } else if s == "track"@ {
        Some(Highway::Track)
    } else if s == "road"@ {
        Some(Highway::Road)
    } else if s == "footway"@ {
        Some(Highway::Footway)
    } else if s == "steps"@ {
        Some(Highway::Steps)
    } else if s == "path"@ {
        Some(Highway::Path)
    } else if s == "cycleway"@ {
        Some(Highway::Cycleway)
    } else {
        None
    }
}

/// Whether two strings hold the same characters.
pub fn str_equal(a: &str, b: &str) -> (r: bool)
    ensures
        r == (a@ == b@),
{
    let n = a.unicode_len();
    if n != b.unicode_len() {
        return false;
    }
    let mut i: usize = 0;
    while i < n
        invariant
            n == a@.len(),
            n == b@.len(),
            i <= n,
            forall|k: int| 0 <= k < i ==> a@[k] == b@[k],
        decreases n - i,
    {
        if a.get_char(i) != b.get_char(i) {
            return false;
        }
        i += 1;
    }
    assert(a@ =~= b@);
    true
}

impl Highway {
    /// Reads the value of a way's `highway` tag.
    pub fn from(tag: &str) -> (r: Option<Highway>)
        ensures
            r == highway_of(tag@),
    {
        proof {
            reveal_strlit("motorway");
            reveal_strlit("trunk");
            reveal_strlit("primary");
            reveal_strlit("secondary");
            reveal_strlit("tertiary");
            reveal_strlit("unclassified");
            reveal_strlit("residential");
            reveal_strlit("motorway_link");
            reveal_strlit("trunk_link");
            reveal_strlit("primary_link");
            reveal_strlit("secondary_link");
            reveal_strlit("tertiary_link");
            reveal_strlit("living_street");
            reveal_strlit("service");
            reveal_strlit("pedestrian");
            reveal_strlit("track");
            reveal_strlit("road");
            reveal_strlit("footway");
            reveal_strlit("steps");
            reveal_strlit("path");
            reveal_strlit("cycleway");
        }
        if str_equal(tag, "motorway") {
            Some(Highway::Motorway)
        } else if str_equal(tag, "trunk") {
            Some(Highway::Trunk)
        } else if str_equal(tag, "primary") {
            Some(Highway::Primary)
        } else if str_equal(tag, "secondary") {
            Some(Highway::Secondary)
        } else if str_equal(tag, "tertiary") {
            Some(Highway::Tertiary)
        } else if str_equal(tag, "unclassified") {
            Some(Highway::Unclassified)
        } else if str_equal(tag, "residential") {
            Some(Highway::Residential)
        } else if str_equal(tag, "motorway_link") {
            Some(Highway::MotorwayLink)
        } else if str_equal(tag, "trunk_link") {
            Some(Highway::TrunkLink)
        } else if str_equal(tag, "primary_link") {
            Some(Highway::PrimaryLink)
        } else if str_equal(tag, "secondary_link") {
            Some(Highway::SecondaryLink)
        } else if str_equal(tag, "tertiary_link") {
            Some(Highway::TertiaryLink)
        } else if str_equal(tag, "living_street") {
            Some(Highway::LivingStreet)
        } else if str_equal(tag, "service") {
            Some(Highway::Service)
        } else if str_equal(tag, "pedestrian") {
            Some(Highway::Pedestrian)
        } else if str_equal(tag, "track") {
            Some(Highway::Track)
        } else if str_equal(tag, "road") {
            Some(Highway::Road)
        } else if str_equal(tag, "footway") {
            Some(Highway::Footway)
        } else if str_equal(tag, "steps") {
            Some(Highway::Steps)
        } else if str_equal(tag, "path") {
            Some(Highway::Path)
        } else if str_equal(tag, "cycleway") {
            Some(Highway::Cycleway)
        } else {
            None
        }
    }

    pub fn default_speed(self) -> (r: Option<Kmh>)
        ensures
            r == Some(Kmh { speed: default_speed_of(self) }),
    {
        let speed: u8 = match self {
            Highway::Motorway | Highway::Trunk => 120,
            Highway::Primary | Highway::Secondary | Highway::Tertiary => 100,
            Highway::MotorwayLink | Highway::TrunkLink => 60,
            Highway::Unclassified | Highway::PrimaryLink | Highway::SecondaryLink
            | Highway::TertiaryLink => 50,
            Highway::LivingStreet => 5,
            _ => 30,
        };
        Some(Kmh::new(speed))
    }
}

/// A speed in km/h.
#[derive(Debug, Clone, Copy, PartialEq, Eq, Structural)]
pub struct Kmh {
    pub speed: u8,
}

/// Seconds to cover `distance` meters at `speed` km/h, rounded to the nearest
/// second (halves up) and capped at `u32::MAX`; at speed zero any positive
/// distance takes `u32::MAX` seconds.
pub open spec fn travel_time(speed: int, distance: int) -> int {
    if speed == 0 {
        if distance == 0 {
            0
        } else {
            u32::MAX as int
        }
    } else {
        let t = (36 * distance + 5 * speed) / (10 * speed);
        if t > u32::MAX as int {
            u32::MAX as int
        } else {
            t
        }
    }
}

/// Travel times are never negative.
pub proof fn lemma_travel_time_nonneg(speed: int, distance: int)
    requires
        speed >= 0,
        distance >= 0,
    ensures
        travel_time(speed, distance) >= 0,
{
    if speed > 0 {
        assert((36 * distance + 5 * speed) / (10 * speed) >= 0) by (nonlinear_arith)
            requires
                speed > 0,
                distance >= 0,
        ;
    }
}

impl Kmh {
    pub fn new(speed: u8) -> (r: Self)
        ensures
            r.speed == speed,
    {
        Self { speed }
    }

    /// Reads the value of a way's `maxspeed` tag.
    pub fn from(tag: &str) -> (r: Option<Kmh>)
        ensures
            r == max_speed_of(tag@),
    {
        if let Some(speed) = parse_speed(tag) {
            return Some(Kmh::new(speed));
        }
        let n = tag.unicode_len();
        let i = match find_space(tag, 0) {
            Some(i) => i,
            None => {
                proof {
                    assert(!exists|i: int| 0 <= i < tag@.len() && tag@[i] == ' ');
                }
                return None;
            },
        };
        proof {
            assert(tag@[i as int] == ' ');
            let c = choose|c: int| 0 <= c < tag@.len() && tag@[c] == ' ' && forall|j: int| 0 <= j < c ==> #[trigger] tag@[j] != ' ';
            if c < i {
                assert(tag@[c] != ' ');
            } else if c > i {
                assert(tag@[i as int] != ' ');
            }
        }
        let rest = tag.substring_char(i + 1, n);
        let end = match find_space(tag, i + 1) {
            Some(j) => j,
            None => n,
        };
        let second = tag.substring_char(i + 1, end);
        proof {
            reveal_strlit("mph");
            let r = tag@.subrange(i + 1, n as int);
            if end < n {
                assert(r[end - i - 1] == ' ');
                let c = choose|c: int| 0 <= c < r.len() && r[c] == ' ' && forall|j: int| 0 <= j < c ==> #[trigger] r[j] != ' ';
                if c < end - i - 1 {
                    assert(r[c] == tag@[c + i + 1]);
                } else if c > end - i - 1 {
                    assert(r[end - i - 1] != ' ');
                }
                assert(second@ =~= r.subrange(0, end - i - 1));
            } else {
                assert forall|j: int| 0 <= j < r.len() implies r[j] != ' ' by {
                    assert(r[j] == tag@[j + i + 1]);
                }
                assert(second@ =~= r);
            }
        }
        if !str_equal(second, "mph") {
            return None;
        }
        let first = tag.substring_char(0, i);
        match parse_speed(first) {
            Some(mph) => {
                let kmh = (mph as u32 * 1_609_344) / 1_000_000;
                Some(Kmh::new(if kmh > 255 { 255 } else { kmh as u8 }))
            },
            None => None,
        }
    }

    /// Travel time in seconds over `distance` meters.
    pub fn time(self, distance: u32) -> (r: u32)
        ensures
            r == travel_time(self.speed as int, distance as int),
    {
        if self.speed == 0 {
            if distance == 0 {
                0
            } else {
                u32::MAX
            }
        } else {
            let s = self.speed as u64;
            let t = (36 * (distance as u64) + 5 * s) / (10 * s);
            if t > u32::MAX as u64 {
                u32::MAX
            } else {
                t as u32
            }
        }
    }
}

/// Whether a way's `oneway` tag makes it one-way: only the value `yes` does;
/// a way without the tag runs both ways.
pub fn is_oneway(tag: Option<&str>) -> (r: bool)
    ensures
        r == (tag.is_some() && tag.unwrap()@ == "yes"@),
{
    match tag {
        Some(t) => str_equal(t, "yes"),
        None => false,
    }
}

pub open spec fn is_digit(c: char) -> bool {
    '0' <= c <= '9'
}

/// The value of a string of decimal digits.
pub open spec fn decimal_value(s: Seq<char>) -> int
    decreases s.len(),
{
    if s.len() == 0 {
        0
    } else {
        decimal_value(s.drop_last()) * 10 + (s.last() as int - '0' as int)
    }
}

/// `s` without a leading `+`.
pub open spec fn unsigned_part(s: Seq<char>) -> Seq<char> {
    if s.len() > 0 && s[0] == '+' {
        s.drop_first()
    } else {
        s
    }
}

pub open spec fn all_digits(t: Seq<char>) -> bool {
    forall|i: int| 0 <= i < t.len() ==> is_digit(#[trigger] t[i])
}

/// What `str::parse::<u8>` gives: an optional `+`, then at least one digit,
/// worth at most 255.
pub open spec fn parse_u8(s: Seq<char>) -> Option<u8> {
    let t = unsigned_part(s);
    if t.len() > 0 && all_digits(t) && decimal_value(t) <= 255 {
        Some(decimal_value(t) as u8)
    } else {
        None
    }
}

proof fn lemma_decimal_nonneg(t: Seq<char>)
    requires
        forall|i: int| 0 <= i < t.len() ==> is_digit(#[trigger] t[i]),
    ensures
        decimal_value(t) >= 0,
    decreases t.len(),
{
    if t.len() > 0 {
        assert(is_digit(t[t.len() - 1]));
        lemma_decimal_nonneg(t.drop_last());
    }
}

proof fn lemma_decimal_grows(t: Seq<char>, k: int)
    requires
        0 <= k <= t.len(),
        forall|i: int| 0 <= i < t.len() ==> is_digit(#[trigger] t[i]),
    ensures
        decimal_value(t.subrange(0, k)) <= decimal_value(t),
    decreases t.len() - k,
{
    if k < t.len() {
        lemma_decimal_grows(t, k + 1);
        assert(t.subrange(0, k + 1).drop_last() =~= t.subrange(0, k));
        assert(is_digit(t[k]));
        lemma_decimal_nonneg(t.subrange(0, k));
    } else {
        assert(t.subrange(0, k) =~= t);
    }
}

/// Parses a speed in km/h the way `str::parse::<u8>` does.
pub fn parse_speed(s: &str) -> (r: Option<u8>)
    ensures
        r == parse_u8(s@),
{
    let n = s.unicode_len();
    let mut i: usize = 0;
    if n > 0 && s.get_char(0) == '+' {
        i = 1;
    }
    let ghost t = unsigned_part(s@);
    let ghost first = i;
    proof {
        assert(t =~= s@.subrange(first as int, n as int));
    }
    if i >= n {
        return None;
    }
    let mut value: u32 = 0;
    while i < n
        invariant
            n == s@.len(),
            first <= i <= n,
            first == 0 || first == 1,
            t == s@.subrange(first as int, n as int),
            t == unsigned_part(s@),
            forall|k: int| 0 <= k < i - first ==> is_digit(#[trigger] t[k]),
            value == decimal_value(t.subrange(0, i - first)),
            value <= 255,
        decreases n - i,
    {
        let c = s.get_char(i);
        let ghost k = i - first;
        assert(t[k] == c);
        if c < '0' || c > '9' {
            assert(!is_digit(t[k]));
            return None;
        }
        assert(t.subrange(0, k + 1).drop_last() =~= t.subrange(0, k));
        value = value * 10 + (c as u32 - '0' as u32);
        assert(t.subrange(0, k + 1).last() == c);
        assert(value == decimal_value(t.subrange(0, k + 1)));
        if value > 255 {
            proof {
                if all_digits(t) {
                    lemma_decimal_grows(t, k + 1);
                }
            }
            return None;
        }
        i += 1;
    }
    proof {
        assert(t.subrange(0, n - first) =~= t);
    }
    Some(value as u8)
}

/// Where the first space of `s` stands, if there is one.
pub open spec fn first_space(s: Seq<char>) -> Option<int> {
    if exists|i: int| 0 <= i < s.len() && s[i] == ' ' {
        Some(choose|i: int| 0 <= i < s.len() && s[i] == ' ' && forall|j: int| 0 <= j < i ==> #[trigger] s[j] != ' ')
    } else {
        None
    }
}

/// km/h for a speed in mph, cut to a whole number and capped at 255.
pub open spec fn mph_to_kmh(mph: int) -> int {
    let k = mph * 1_609_344 / 1_000_000;
    if k > 255 {
        255
    } else {
        k
    }
}

/// The speed given by a `maxspeed` tag value: a bare number of km/h, or
/// `<n> mph` (the second space-separated field being `mph`).
pub open spec fn max_speed_of(s: Seq<char>) -> Option<Kmh> {
    match parse_u8(s) {
        Some(v) => Some(Kmh { speed: v }),
        None => match first_space(s) {
            None => None,
            Some(i) => {
                let rest = s.subrange(i + 1, s.len() as int);
                let second = match first_space(rest) {
                    Some(j) => rest.subrange(0, j),
                    None => rest,
                };
                if second == "mph"@ {
                    match parse_u8(s.subrange(0, i)) {
                        Some(m) => Some(Kmh { speed: mph_to_kmh(m as int) as u8 }),
                        None => None,
                    }
                } else {
                    None
                }
            },
        },
    }
}

/// Where the first space of `s` at or after `from` stands.
fn find_space(s: &str, from: usize) -> (r: Option<usize>)
    requires
        from <= s@.len(),
    ensures
        match r {
            Some(i) => from <= i < s@.len() && s@[i as int] == ' ' && forall|j: int|
                from <= j < i ==> #[trigger] s@[j] != ' ',
            None => forall|j: int| from <= j < s@.len() ==> #[trigger] s@[j] != ' ',
        },
{
    let n = s.unicode_len();
    let mut i = from;
    while i < n
        invariant
            n == s@.len(),
            from <= i <= n,
            forall|j: int| from <= j < i ==> #[trigger] s@[j] != ' ',
        decreases n - i,
    {
        if s.get_char(i) == ' ' {
            return Some(i);
        }
        i += 1;
    }
    None
}

/// Surface classes of a way.
#[derive(Debug, Clone, Copy, PartialEq, Eq, Structural, Hash)]
pub enum Surface {
    Paved,
    Unpaved,
    Asphalt,
    Concrete,
    PavingStones,
    Sett,
    Cobblestone,
    Metal,
    Wood,
    Compacted,
    FineGravel,
    Gravel,
    Pebblestone,
    Plastic,
    GrassPaver,
    Grass,
    Dirt,
    Earth,
    Mud,
    Sand,
    Ground,
}

/// The surface named by an OSM `surface` tag value (snake case).
pub open spec fn surface_of(s: Seq<char>) -> Option<Surface> {
    if s == "paved"@ {
        Some(Surface::Paved)
    } else if s == "unpaved"@ {
        Some(Surface::Unpaved)
    } else if s == "asphalt"@ {
        Some(Surface::Asphalt)
    } else if s == "concrete"@ {
        Some(Surface::Concrete)
    } else if s == "paving_stones"@ {
        Some(Surface::PavingStones)
    } else if s == "sett"@ {
        Some(Surface::Sett)
    } else if s == "cobblestone"@ {
        Some(Surface::Cobblestone)
    } else if s == "metal"@ {
        Some(Surface::Metal)
    } else if s == "wood"@ {
        Some(Surface::Wood)
    } else if s == "compacted"@ {
        Some(Surface::Compacted)
    } else if s == "fine_gravel"@ {
        Some(Surface::FineGravel)
    } else if s == "gravel"@ {
        Some(Surface::Gravel)
    } else if s == "pebblestone"@ {
        Some(Surface::Pebblestone)
    } else if s == "plastic"@ {
        Some(Surface::Plastic)
    } else if s == "grass_paver"@ {
        Some(Surface::GrassPaver)
    } else if s == "grass"@ {
        Some(Surface::Grass)
    } else if s == "dirt"@ {
        Some(Surface::Dirt)
    } else if s == "earth"@ {
        Some(Surface::Earth)
    } else if s == "mud"@ {
        Some(Surface::Mud)
    } else if s == "sand"@ {
        Some(Surface::Sand)
    } else if s == "ground"@ {
        Some(Surface::Ground)
    } else {
        None
    }
}

impl Surface {
    /// Reads the value of a way's `surface` tag.
    pub fn from(tag: &str) -> (r: Option<Surface>)
        ensures
            r == surface_of(tag@),
    {
        proof {
            reveal_strlit("paved");
            reveal_strlit("unpaved");
            reveal_strlit("asphalt");
            reveal_strlit("concrete");
            reveal_strlit("paving_stones");
            reveal_strlit("sett");
            reveal_strlit("cobblestone");
            reveal_strlit("metal");
            reveal_strlit("wood");
            reveal_strlit("compacted");
            reveal_strlit("fine_gravel");
            reveal_strlit("gravel");
            reveal_strlit("pebblestone");
            reveal_strlit("plastic");
            reveal_strlit("grass_paver");
            reveal_strlit("grass");
            reveal_strlit("dirt");
            reveal_strlit("earth");
            reveal_strlit("mud");
            reveal_strlit("sand");
            reveal_strlit("ground");
        }
        if str_equal(tag, "paved") {
            Some(Surface::Paved)
        } else if str_equal(tag, "unpaved") {
            Some(Surface::Unpaved)
        } else if str_equal(tag, "asphalt") {
            Some(Surface::Asphalt)
        } else if str_equal(tag, "concrete") {
            Some(Surface::Concrete)
        } else if str_equal(tag, "paving_stones") {
            Some(Surface::PavingStones)
        } else if str_equal(tag, "sett") {
            Some(Surface::Sett)
        } else if str_equal(tag, "cobblestone") {
            Some(Surface::Cobblestone)
        } else if str_equal(tag, "metal") {
            Some(Surface::Metal)
        } else if str_equal(tag, "wood") {
            Some(Surface::Wood)
        } else if str_equal(tag, "compacted") {
            Some(Surface::Compacted)
        } else if str_equal(tag, "fine_gravel") {
            Some(Surface::FineGravel)
        } else if str_equal(tag, "gravel") {
            Some(Surface::Gravel)
        } else if str_equal(tag, "pebblestone") {
            Some(Surface::Pebblestone)
        } else if str_equal(tag, "plastic") {
            Some(Surface::Plastic)
        } else if str_equal(tag, "grass_paver") {
            Some(Surface::GrassPaver)
        } else if str_equal(tag, "grass") {
            Some(Surface::Grass)
        } else if str_equal(tag, "dirt") {
            Some(Surface::Dirt)
        } else if str_equal(tag, "earth") {
            Some(Surface::Earth)
        } else if str_equal(tag, "mud") {
            Some(Surface::Mud)
        } else if str_equal(tag, "sand") {
            Some(Surface::Sand)
        } else if str_equal(tag, "ground") {
            Some(Surface::Ground)
        } else {
            None
        }
    }
}

} // verus!
