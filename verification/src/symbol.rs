//! APRS map symbols: a symbol table identifier and a symbol code.
use vstd::prelude::*;

verus! {

/// An APRS position symbol, consisting of a symbol table identifier and a symbol code.
///
/// - `table == '/'`: primary symbol table
/// - `table == '\\'`: alternate symbol table
/// - `table` is `'A'..='Z'` or `'0'..='9'`: alternate table with an alphanumeric overlay
#[derive(Debug, Clone, Copy, PartialEq, Eq, Structural)]
pub struct Symbol {
    pub table: char,
    pub code: char,
}

/// An ASCII letter or digit.
pub open spec fn is_alnum_char(c: char) -> bool {
    ('0' <= c <= '9') || ('A' <= c <= 'Z') || ('a' <= c <= 'z')
}

/// The name of `code` in the primary symbol table (table `/`), as listed in
/// APRS101, aprs.org/symbols and the aprs.fi symbol reference; `None` for
/// reserved, overlay-only or TNC-internal codes.
pub open spec fn primary_description(code: char) -> Option<&'static str> {
    match code {
        '!' => Some("Police, Sheriff"),
        '#' => Some("Digipeater"),
        '$' => Some("Phone"),
        '%' => Some("DX Cluster"),
        '&' => Some("HF Gateway"),
        '\'' => Some("Small Aircraft"),
        '(' => Some("Mobile Satellite Station"),
        ')' => Some("Wheelchair, Handicapped"),
        '*' => Some("Snowflake"),
        '+' => Some("Red Cross"),
        ',' => Some("Boy Scouts"),
        '-' => Some("House"),
        '.' => Some("X"),
        '/' => Some("Dot"),
        '0' => Some("Circle 0"),
        '1' => Some("Circle 1"),
        '2' => Some("Circle 2"),
        '3' => Some("Circle 3"),
        '4' => Some("Circle 4"),
        '5' => Some("Circle 5"),
        '6' => Some("Circle 6"),
        '7' => Some("Circle 7"),
        '8' => Some("Circle 8"),
        '9' => Some("Circle 9"),
        ':' => Some("Fire"),
        ';' => Some("Campground, Tent"),
        '<' => Some("Motorcycle"),
        '=' => Some("Railroad Engine"),
        '>' => Some("Car"),
        '?' => Some("File Server"),
        '@' => Some("Hurricane, Tropical Storm"),
        '[' => Some("Jogger"),
        '\\' => Some("Triangle"),
        ']' => Some("PBBS"),
        '^' => Some("Large Aircraft"),
        '_' => Some("Weather Station"),
        '`' => Some("Satellite Dish"),
        'a' => Some("Ambulance"),
        'b' => Some("Bike"),
        'c' => Some("Incident Command Post"),
        'd' => Some("Fire Dept"),
        'e' => Some("Horse, Equestrian"),
        'f' => Some("Fire Truck"),
        'g' => Some("Glider"),
        'h' => Some("Hospital"),
        'i' => Some("IOTA"),
        'j' => Some("Jeep"),
        'k' => Some("Truck"),
        'l' => Some("Laptop"),
        'm' => Some("Mic-E Repeater"),
        'n' => Some("Node"),
        'o' => Some("EOC"),
        'p' => Some("Rover, Dog"),
        'q' => Some("Grid Square"),
        'r' => Some("Antenna"),
        's' => Some("Power Boat"),
        't' => Some("Truck Stop"),
        'u' => Some("18-Wheeler"),
        'v' => Some("Van"),
        'w' => Some("Water Station"),
        'x' => Some("APRS"),
        'y' => Some("Yagi Antenna"),
        'z' => Some("Shelter"),
        _ => None,
    }
}

/// The name of `code` in the alternate symbol table (table `\\` and every
/// overlay); `None` for reserved or TNC-internal codes.
pub open spec fn alternate_description(code: char) -> Option<&'static str> {
    match code {
        '!' => Some("Emergency"),
        '#' => Some("Digipeater (numbered)"),
        '$' => Some("ATM, Bank"),
        '%' => Some("Accident Scene"),
        '&' => Some("Haze"),
        '\'' => Some("Flash"),
        '(' => Some("Cloud"),
        ')' => Some("Sunny, Partly Cloudy"),
        '*' => Some("Snow"),
        '+' => Some("Church"),
        ',' => Some("Girl Scouts"),
        '-' => Some("House, Shack"),
        '.' => Some("X"),
        '/' => Some("Circle"),
        '0' => Some("Circle 0 (overlay)"),
        '1' => Some("Circle 1 (overlay)"),
        '2' => Some("Circle 2 (overlay)"),
        '3' => Some("Circle 3 (overlay)"),
        '4' => Some("Circle 4 (overlay)"),
        '5' => Some("Circle 5 (overlay)"),
        '6' => Some("Circle 6 (overlay)"),
        '7' => Some("Circle 7 (overlay)"),
        '8' => Some("Circle 8 (overlay)"),
        '9' => Some("Circle 9 (overlay)"),
        ':' => Some("Hail"),
        ';' => Some("Park, Picnic"),
        '<' => Some("NWS Advisory"),
        '=' => Some("Railroad Station"),
        '>' => Some("Info Kiosk"),
        '?' => Some("Work Zone"),
        '@' => Some("Tornado"),
        '[' => Some("Wall Cloud"),
        '\\' => Some("Misc Aircraft"),
        ']' => Some("Rocket Launch"),
        '^' => Some("Jet Aircraft"),
        '_' => Some("Funnel Cloud"),
        '`' => Some("Rain Shower"),
        'a' => Some("ARES"),
        'b' => Some("Blowing Snow"),
        'c' => Some("Coast Guard"),
        'd' => Some("Drizzle"),
        'e' => Some("Smoke"),
        'f' => Some("Freezing Rain"),
        'g' => Some("Snow Shower"),
        'h' => Some("Haze"),
        'i' => Some("Rain Shower"),
        'j' => Some("Lightning"),
        'k' => Some("Kenwood Radio"),
        'l' => Some("Lighthouse"),
        'm' => Some("MARS"),
        'n' => Some("Navigation Buoy"),
        'o' => Some("Rocket"),
        'p' => Some("Parking"),
        'q' => Some("Earthquake"),
        'r' => Some("Restaurant"),
        's' => Some("Satellite"),
        't' => Some("Thunderstorm"),
        'u' => Some("Sunny"),
        'v' => Some("VORTAC, Nav Aid"),
        'w' => Some("NWS Site"),
        'x' => Some("Pharmacy"),
        'y' => Some("Radiosonde"),
        'z' => Some("Shelter"),
        '{' => Some("Fog"),
        _ => None,
    }
}

/// The description of a symbol: primary table for `/`, alternate table
/// otherwise (overlays share the alternate table).
pub open spec fn symbol_description(s: Symbol) -> Option<&'static str> {
    if s.table == '/' {
        primary_description(s.code)
    } else {
        alternate_description(s.code)
    }
}

fn primary_lookup(code: char) -> (r: Option<&'static str>)
    ensures
        r == primary_description(code),
{
    match code {
        '!' => Some("Police, Sheriff"),
        '#' => Some("Digipeater"),
        '$' => Some("Phone"),
        '%' => Some("DX Cluster"),
        '&' => Some("HF Gateway"),
        '\'' => Some("Small Aircraft"),
        '(' => Some("Mobile Satellite Station"),
        ')' => Some("Wheelchair, Handicapped"),
        '*' => Some("Snowflake"),
        '+' => Some("Red Cross"),
        ',' => Some("Boy Scouts"),
        '-' => Some("House"),
        '.' => Some("X"),
        '/' => Some("Dot"),
        '0' => Some("Circle 0"),
        '1' => Some("Circle 1"),
        '2' => Some("Circle 2"),
        '3' => Some("Circle 3"),
        '4' => Some("Circle 4"),
        '5' => Some("Circle 5"),
        '6' => Some("Circle 6"),
        '7' => Some("Circle 7"),
        '8' => Some("Circle 8"),
        '9' => Some("Circle 9"),
        ':' => Some("Fire"),
        ';' => Some("Campground, Tent"),
        '<' => Some("Motorcycle"),
        '=' => Some("Railroad Engine"),
        '>' => Some("Car"),
        '?' => Some("File Server"),
        '@' => Some("Hurricane, Tropical Storm"),
        '[' => Some("Jogger"),
        '\\' => Some("Triangle"),
        ']' => Some("PBBS"),
        '^' => Some("Large Aircraft"),
        '_' => Some("Weather Station"),
        '`' => Some("Satellite Dish"),
        'a' => Some("Ambulance"),
        'b' => Some("Bike"),
        'c' => Some("Incident Command Post"),
        'd' => Some("Fire Dept"),
        'e' => Some("Horse, Equestrian"),
        'f' => Some("Fire Truck"),
        'g' => Some("Glider"),
        'h' => Some("Hospital"),
        'i' => Some("IOTA"),
        'j' => Some("Jeep"),
        'k' => Some("Truck"),
        'l' => Some("Laptop"),
        'm' => Some("Mic-E Repeater"),
        'n' => Some("Node"),
        'o' => Some("EOC"),
        'p' => Some("Rover, Dog"),
        'q' => Some("Grid Square"),
        'r' => Some("Antenna"),
        's' => Some("Power Boat"),
        't' => Some("Truck Stop"),
        'u' => Some("18-Wheeler"),
        'v' => Some("Van"),
        'w' => Some("Water Station"),
        'x' => Some("APRS"),
        'y' => Some("Yagi Antenna"),
        'z' => Some("Shelter"),
        _ => None,
    }
}

fn alternate_lookup(code: char) -> (r: Option<&'static str>)
    ensures
        r == alternate_description(code),
{
    match code {
        '!' => Some("Emergency"),
        '#' => Some("Digipeater (numbered)"),
        '$' => Some("ATM, Bank"),
        '%' => Some("Accident Scene"),
        '&' => Some("Haze"),
        '\'' => Some("Flash"),
        '(' => Some("Cloud"),
        ')' => Some("Sunny, Partly Cloudy"),
        '*' => Some("Snow"),
        '+' => Some("Church"),
        ',' => Some("Girl Scouts"),
        '-' => Some("House, Shack"),
        '.' => Some("X"),
        '/' => Some("Circle"),
        '0' => Some("Circle 0 (overlay)"),
        '1' => Some("Circle 1 (overlay)"),
        '2' => Some("Circle 2 (overlay)"),
        '3' => Some("Circle 3 (overlay)"),
        '4' => Some("Circle 4 (overlay)"),
        '5' => Some("Circle 5 (overlay)"),
        '6' => Some("Circle 6 (overlay)"),
        '7' => Some("Circle 7 (overlay)"),
        '8' => Some("Circle 8 (overlay)"),
        '9' => Some("Circle 9 (overlay)"),
        ':' => Some("Hail"),
        ';' => Some("Park, Picnic"),
        '<' => Some("NWS Advisory"),
        '=' => Some("Railroad Station"),
        '>' => Some("Info Kiosk"),
        '?' => Some("Work Zone"),
        '@' => Some("Tornado"),
        '[' => Some("Wall Cloud"),
        '\\' => Some("Misc Aircraft"),
        ']' => Some("Rocket Launch"),
        '^' => Some("Jet Aircraft"),
        '_' => Some("Funnel Cloud"),
        '`' => Some("Rain Shower"),
        'a' => Some("ARES"),
        'b' => Some("Blowing Snow"),
        'c' => Some("Coast Guard"),
        'd' => Some("Drizzle"),
        'e' => Some("Smoke"),
        'f' => Some("Freezing Rain"),
        'g' => Some("Snow Shower"),
        'h' => Some("Haze"),
        'i' => Some("Rain Shower"),
        'j' => Some("Lightning"),
        'k' => Some("Kenwood Radio"),
        'l' => Some("Lighthouse"),
        'm' => Some("MARS"),
        'n' => Some("Navigation Buoy"),
        'o' => Some("Rocket"),
        'p' => Some("Parking"),
        'q' => Some("Earthquake"),
        'r' => Some("Restaurant"),
        's' => Some("Satellite"),
        't' => Some("Thunderstorm"),
        'u' => Some("Sunny"),
        'v' => Some("VORTAC, Nav Aid"),
        'w' => Some("NWS Site"),
        'x' => Some("Pharmacy"),
        'y' => Some("Radiosonde"),
        'z' => Some("Shelter"),
        '{' => Some("Fog"),
        _ => None,
    }
}

impl Symbol {
    pub fn new(table: char, code: char) -> (r: Self)
        ensures
            r.table == table,
            r.code == code,
    {
        Symbol { table, code }
    }

    pub fn is_primary_table(self) -> (r: bool)
        ensures
            r == (self.table == '/'),
    {
        self.table == '/'
    }

    pub fn is_alternate_table(self) -> (r: bool)
        ensures
            r == (self.table == '\\'),
    {
        self.table == '\\'
    }

    /// Returns the overlay character if this symbol uses an alphanumeric overlay.
    pub fn overlay(self) -> (r: Option<char>)
        ensures
            r == (if is_alnum_char(self.table) {
                Some(self.table)
            } else {
                None::<char>
            }),
    {
        let t = self.table;
        if (t >= '0' && t <= '9') || (t >= 'A' && t <= 'Z') || (t >= 'a' && t <= 'z') {
            Some(t)
        } else {
            None
        }
    }

    /// Look up the human-readable description of this symbol.
    ///
    /// Returns `None` for reserved, overlay-only, or TNC-internal codes.
    pub fn description(self) -> (r: Option<&'static str>)
        ensures
            r == symbol_description(self),
    {
        if self.is_primary_table() {
            primary_lookup(self.code)
        } else {
            alternate_lookup(self.code)
        }
    }
}


/// Every table but the primary one reads a code as the alternate table does:
/// an overlay character names the alternate symbol it is drawn on.
pub proof fn lemma_overlay_description(t: char, c: char)
    requires
        t != '/',
    ensures
        symbol_description((Symbol { table: t, code: c })) == symbol_description(
            (Symbol { table: '\\', code: c }),
        ),
{
}

/// Codes outside `!`..`~`, and the overlay-only codes `A`..`Z`, have no
/// description in any table.
pub proof fn lemma_no_description(t: char, c: char)
    requires
        !('!' <= c <= '~') || ('A' <= c <= 'Z'),
    ensures
        (symbol_description((Symbol { table: t, code: c })) is None),
{
}

} // verus!
