use vstd::prelude::*;

use crate::cursor::{lines_of, LineCursor};
use crate::text::{
    chars_of, find_char, index_of, parse_unsigned, push_char, range_is, string_of, string_views,
    unsigned_value,
};

verus! {

/// The fields of a row from index `i` on, `cur` being the part of the current field read
/// so far. Fields are separated by colons; a backslash before a colon makes the colon part
/// of the field.
pub open spec fn fields_from(l: Seq<char>, i: int, cur: Seq<char>) -> Seq<Seq<char>>
    decreases l.len() - i,
{
    if i < 0 || i >= l.len() {
        seq![cur]
    } else if l[i] == '\\' && i + 1 < l.len() && l[i + 1] == ':' {
        fields_from(l, i + 2, cur.push(':'))
    } else if l[i] == ':' {
        seq![cur] + fields_from(l, i + 1, seq![])
    } else {
        fields_from(l, i + 1, cur.push(l[i]))
    }
}

proof fn lemma_fields_nonempty(l: Seq<char>, i: int, cur: Seq<char>)
    ensures
        fields_from(l, i, cur).len() >= 1,
    decreases l.len() - i,
{
    if 0 <= i < l.len() {
        if l[i] == '\\' && i + 1 < l.len() && l[i + 1] == ':' {
            lemma_fields_nonempty(l, i + 2, cur.push(':'));
        } else if l[i] == ':' {
            lemma_fields_nonempty(l, i + 1, seq![]);
        } else {
            lemma_fields_nonempty(l, i + 1, cur.push(l[i]));
        }
    }
}

/// The fields of a row, escaped colons restored.
pub open spec fn split_fields(l: Seq<char>) -> Seq<Seq<char>> {
    fields_from(l, 0, seq![])
}

/// Splits a row into its fields.
pub fn split_row(l: &Vec<char>) -> (r: Vec<String>)
    ensures
        string_views(r@) == split_fields(l@),
{
    let mut done: Vec<String> = Vec::new();
    let mut cur = String::new();
    let mut i: usize = 0;
    while i < l.len()
        invariant
            i <= l.len(),
            split_fields(l@) == string_views(done@) + fields_from(l@, i as int, cur@),
        decreases l.len() - i,
    {
        if l[i] == '\\' && i + 1 < l.len() && l[i + 1] == ':' {
            push_char(&mut cur, ':');
            i = i + 2;
        } else if l[i] == ':' {
            let ghost before = string_views(done@);
            let ghost field = cur@;
            done.push(cur);
            cur = String::new();
            proof {
                assert(string_views(done@) =~= before.push(field));
                assert(before + (seq![field] + fields_from(l@, i + 1, seq![])) =~= string_views(
                    done@,
                ) + fields_from(l@, i + 1, seq![]));
                assert(cur@ == Seq::<char>::empty());
            }
            i = i + 1;
        } else {
            push_char(&mut cur, l[i]);
            i = i + 1;
        }
    }
    let ghost before = string_views(done@);
    let ghost field = cur@;
    done.push(cur);
    assert(string_views(done@) =~= before.push(field));
    assert(before + seq![field] =~= string_views(done@));
    done
}

pub open spec fn is_hex(c: char) -> bool {
    ('0' <= c && c <= '9') || ('a' <= c && c <= 'f') || ('A' <= c && c <= 'F')
}

/// A hardware address: six octets of two hex digits each, separated by colons.
pub open spec fn is_hw_address(s: Seq<char>) -> bool {
    &&& s.len() == 17
    &&& forall|i: int| 0 <= i < 17 ==> if i % 3 == 2 {
        #[trigger] s[i] == ':'
    } else {
        is_hex(s[i])
    }
}

/// The octets of a hardware address.
pub open spec fn octets(s: Seq<char>) -> Seq<Seq<char>> {
    Seq::new(6, |k: int| s.subrange(3 * k, 3 * k + 2))
}

fn check_hw_address(s: &Vec<char>) -> (r: bool)
    ensures
        r == is_hw_address(s@),
{
    if s.len() != 17 {
        return false;
    }
    let mut i: usize = 0;
    while i < 17
        invariant
            s.len() == 17,
            i <= 17,
            forall|k: int| 0 <= k < i ==> if k % 3 == 2 {
                #[trigger] s@[k] == ':'
            } else {
                is_hex(s@[k])
            },
        decreases 17 - i,
    {
        let c = s[i];
        let ok = if i % 3 == 2 {
            c == ':'
        } else {
            (c >= '0' && c <= '9') || (c >= 'a' && c <= 'f') || (c >= 'A' && c <= 'F')
        };
        if !ok {
            return false;
        }
        i = i + 1;
    }
    true
}

/// A field that spells a number between `lo` and `hi`.
pub open spec fn number_between(s: Seq<char>, lo: nat, hi: nat) -> bool {
    unsigned_value(s) matches Some(n) && lo <= n <= hi
}

fn field_number(f: &String, lo: u32, hi: u32) -> (r: Option<u32>)
    ensures
        r is Some <==> number_between(f@, lo as nat, hi as nat),
        r matches Some(n) ==> unsigned_value(f@) == Some(n as nat),
{
    let v = chars_of(f.as_str());
    assert(v@.subrange(0, v.len() as int) =~= v@);
    match parse_unsigned(&v, 0, v.len(), hi) {
        Some(n) => if n >= lo {
            Some(n)
        } else {
            None
        },
        None => None,
    }
}

/// What an access point is, as values.
pub struct WifiView {
    pub bssid: Seq<char>,
    pub ssid: Seq<char>,
    pub mode: Seq<char>,
    pub chan: u8,
    pub rate: Seq<char>,
    pub signal: u8,
    pub bars: Seq<char>,
    pub security: Seq<char>,
}

/// An access point in range.
pub struct Wifi {
    /// Its hardware address, which identifies it.
    pub bssid: String,
    pub ssid: String,
    pub mode: String,
    pub chan: u8,
    pub rate: String,
    /// Signal strength, from 0 to 100.
    pub signal: u8,
    pub bars: String,
    pub security: String,
}

impl View for Wifi {
    type V = WifiView;

    open spec fn view(&self) -> WifiView {
        WifiView {
            bssid: self.bssid@,
            ssid: self.ssid@,
            mode: self.mode@,
            chan: self.chan,
            rate: self.rate@,
            signal: self.signal,
            bars: self.bars@,
            security: self.security@,
        }
    }
}

/// The access point an access point row describes, and whether the row carries the mark
/// of the one in use. A row has at least nine fields: mark, hardware address, network
/// name, mode, channel, rate, signal, bars, security.
pub open spec fn wifi_row(l: Seq<char>) -> Option<(WifiView, bool)> {
    let f = split_fields(l);
    if f.len() >= 9 && is_hw_address(f[1]) && number_between(f[4], 1, 255) && number_between(
        f[6],
        0,
        100,
    ) {
        Some(
            (
                WifiView {
                    bssid: f[1],
                    ssid: f[2],
                    mode: f[3],
                    chan: unsigned_value(f[4])->0 as u8,
                    rate: f[5],
                    signal: unsigned_value(f[6])->0 as u8,
                    bars: f[7],
                    security: f[8],
                },
                f[0] == "*"@,
            ),
        )
    } else {
        None
    }
}

fn take_field(v: &mut Vec<String>, i: usize) -> (r: String)
    requires
        i < old(v).len(),
    ensures
        r@ == old(v)@[i as int]@,
        final(v).len() == old(v).len(),
        forall|k: int| 0 <= k < old(v).len() && k != i ==> final(v)@[k] == old(v)@[k],
{
    let mut r = String::new();
    std::mem::swap(&mut r, &mut v[i]);
    r
}

/// Reads one access point row.
pub fn parse_wifi_row(l: &Vec<char>) -> (r: Option<(Wifi, bool)>)
    ensures
        wifi_row(l@) is None ==> r is None,
        wifi_row(l@) matches Some((w, cur)) ==> (r matches Some((x, c)) && x@ == w && c == cur),
{
    let mut f = split_row(l);
    if f.len() < 9 {
        return None;
    }
    assert(string_views(f@)[1] == f@[1]@);
    assert(string_views(f@)[4] == f@[4]@);
    assert(string_views(f@)[6] == f@[6]@);
    if !check_hw_address(&chars_of(f[1].as_str())) {
        return None;
    }
    let chan = match field_number(&f[4], 1, 255) {
        Some(n) => n as u8,
        None => return None,
    };
    let signal = match field_number(&f[6], 0, 100) {
        Some(n) => n as u8,
        None => return None,
    };
    let ghost fv = string_views(f@);
    let marker = chars_of(f[0].as_str());
    assert(marker@.subrange(0, marker.len() as int) =~= marker@);
    assert(fv[0] == f@[0]@);
    let current = range_is(&marker, 0, marker.len(), "*");
    let security = take_field(&mut f, 8);
    let bars = take_field(&mut f, 7);
    let rate = take_field(&mut f, 5);
    let mode = take_field(&mut f, 3);
    let ssid = take_field(&mut f, 2);
    let bssid = take_field(&mut f, 1);
    proof {
        assert(fv[1] == bssid@);
        assert(fv[2] == ssid@);
        assert(fv[3] == mode@);
        assert(fv[5] == rate@);
        assert(fv[7] == bars@);
        assert(fv[8] == security@);
    }
    Some((Wifi { bssid, ssid, mode, chan, rate, signal, bars, security }, current))
}

/// A row field with each colon written as a backslash and a colon.
pub open spec fn escape_colons(s: Seq<char>) -> Seq<char>
    decreases s.len(),
{
    if s.len() == 0 {
        seq![]
    } else {
        (if s[0] == ':' {
            seq!['\\', ':']
        } else {
            seq![s[0]]
        }) + escape_colons(s.drop_first())
    }
}

pub open spec fn free_of_separators(s: Seq<char>) -> bool {
    forall|i: int| 0 <= i < s.len() ==> #[trigger] s[i] != ':' && s[i] != '\\'
}

proof fn lemma_plain_run(l: Seq<char>, i: int, j: int, cur: Seq<char>)
    requires
        0 <= i <= j <= l.len(),
        free_of_separators(l.subrange(i, j)),
    ensures
        fields_from(l, i, cur) == fields_from(l, j, cur + l.subrange(i, j)),
    decreases j - i,
{
    if i < j {
        assert(l.subrange(i, j)[0] == l[i]);
        assert(l.subrange(i + 1, j) =~= l.subrange(i, j).drop_first());
        lemma_plain_run(l, i + 1, j, cur.push(l[i]));
        assert(cur.push(l[i]) + l.subrange(i + 1, j) =~= cur + l.subrange(i, j));
    } else {
        assert(cur + l.subrange(i, j) =~= cur);
    }
}

proof fn lemma_escaped_run(l: Seq<char>, i: int, a: Seq<char>, cur: Seq<char>)
    requires
        0 <= i,
        i + escape_colons(a).len() <= l.len(),
        l.subrange(i, i + escape_colons(a).len()) == escape_colons(a),
        forall|k: int| 0 <= k < a.len() ==> #[trigger] a[k] != '\\',
    ensures
        fields_from(l, i, cur) == fields_from(l, i + escape_colons(a).len(), cur + a),
    decreases a.len(),
{
    let e = escape_colons(a);
    if a.len() == 0 {
        assert(cur + a =~= cur);
    } else {
        let rest = a.drop_first();
        let h: Seq<char> = if a[0] == ':' {
            seq!['\\', ':']
        } else {
            seq![a[0]]
        };
        assert(e == h + escape_colons(rest));
        assert forall|k: int| 0 <= k < rest.len() implies #[trigger] rest[k] != '\\' by {
            assert(rest[k] == a[k + 1]);
        }
        assert(l.subrange(i, i + e.len())[0] == l[i]);
        assert(l.subrange(i + h.len(), i + e.len()) =~= escape_colons(rest)) by {
            assert forall|k: int| 0 <= k < escape_colons(rest).len() implies l.subrange(
                i + h.len(),
                i + e.len(),
            )[k] == escape_colons(rest)[k] by {
                assert(l.subrange(i, i + e.len())[h.len() + k] == e[h.len() + k]);
            }
        }
        if a[0] == ':' {
            assert(l.subrange(i, i + e.len())[1] == l[i + 1]);
            lemma_escaped_run(l, i + 2, rest, cur.push(':'));
        } else {
            lemma_escaped_run(l, i + 1, rest, cur.push(a[0]));
        }
        assert(cur.push(a[0]) + rest =~= cur + a);
    }
}

/// A row whose second field has its colons escaped yields that field, with real colons,
/// as its second field; an access point read from it has that field as its hardware
/// address, which then has six octets.
pub proof fn lemma_escaped_address(mark: Seq<char>, addr: Seq<char>, rest: Seq<char>)
    requires
        free_of_separators(mark),
        forall|k: int| 0 <= k < addr.len() ==> #[trigger] addr[k] != '\\',
    ensures
        ({
            let row = mark + ":"@ + escape_colons(addr) + ":"@ + rest;
            &&& split_fields(row).len() >= 2
            &&& split_fields(row)[0] == mark
            &&& split_fields(row)[1] == addr
            &&& wifi_row(row) matches Some((w, c)) ==> w.bssid == addr && is_hw_address(addr)
                && octets(addr).len() == 6
        }),
{
    reveal_strlit(":");
    let e = escape_colons(addr);
    let row = mark + ":"@ + e + ":"@ + rest;
    let m = mark.len() as int;
    assert(row.subrange(0, m) =~= mark);
    lemma_plain_run(row, 0, m, seq![]);
    assert(seq![] + mark =~= mark);
    assert(row[m] == ':');
    assert(row.subrange(m + 1, m + 1 + e.len()) =~= e);
    lemma_escaped_run(row, m + 1, addr, seq![]);
    assert(seq![] + addr =~= addr);
    assert(row[m + 1 + e.len()] == ':');
    assert(fields_from(row, m, mark) == seq![mark] + fields_from(row, m + 1, seq![]));
    assert(fields_from(row, m + 1 + e.len(), addr) == seq![addr] + fields_from(
        row,
        m + 2 + e.len(),
        seq![],
    ));
}

/// Every row of an access point listing is well formed.
pub open spec fn rows_valid(ls: Seq<Seq<char>>) -> bool {
    forall|i: int| 0 <= i < ls.len() ==> #[trigger] wifi_row(ls[i]) is Some
}

/// The index of the first row that is not well formed.
pub open spec fn first_bad_row(ls: Seq<Seq<char>>, k: int) -> bool {
    0 <= k < ls.len() && wifi_row(ls[k]) is None && forall|i: int|
        0 <= i < k ==> #[trigger] wifi_row(ls[i]) is Some
}

pub open spec fn row_wifi(l: Seq<char>) -> WifiView {
    match wifi_row(l) {
        Some((w, _)) => w,
        None => arbitrary(),
    }
}

pub open spec fn row_marked(l: Seq<char>) -> bool {
    match wifi_row(l) {
        Some((_, c)) => c,
        None => false,
    }
}

/// The hardware address of the last of the first `j` rows that carries the mark of the
/// access point in use.
pub open spec fn marked_bssid(ls: Seq<Seq<char>>, j: int) -> Option<Seq<char>>
    decreases j,
{
    if 0 < j <= ls.len() {
        if row_marked(ls[j - 1]) {
            Some(row_wifi(ls[j - 1]).bssid)
        } else {
            marked_bssid(ls, j - 1)
        }
    } else {
        None
    }
}

/// The device a device row names: its first field.
pub open spec fn device_name(l: Seq<char>) -> Seq<char> {
    split_fields(l)[0]
}

/// The connection a known connection row names: the text before its first semicolon.
pub open spec fn known_name(l: Seq<char>) -> Seq<char> {
    l.subrange(0, index_of(l, ';', 0))
}

/// `s` with every repeat of an earlier item left out.
pub open spec fn dedup(s: Seq<Seq<char>>) -> Seq<Seq<char>>
    decreases s.len(),
{
    if s.len() == 0 {
        seq![]
    } else {
        let d = dedup(s.drop_last());
        if d.contains(s.last()) {
            d
        } else {
            d.push(s.last())
        }
    }
}

/// Why an access point listing was refused.
#[derive(Clone, Copy, Debug, PartialEq, Eq, Structural)]
pub enum RowError {
    /// The row at this index, counting from zero, is not well formed.
    MalformedRow(usize),
}

/// A network device.
pub struct Device {
    pub device: String,
    /// Whether the device is enabled; a device is listed as enabled.
    pub status: bool,
}

pub struct NetworkView {
    pub devices: Seq<(Seq<char>, bool)>,
    pub wifis: Seq<WifiView>,
    pub known: Seq<Seq<char>>,
    pub current: Option<Seq<char>>,
    pub init: bool,
}

/// The network devices, the access points in range with the one in use, and the
/// connections saved before.
pub struct Network {
    devices: Vec<Device>,
    live_wifis: Vec<Wifi>,
    known_wifis: Vec<String>,
    current_wifi: Option<String>,
    init: bool,
}

impl View for Network {
    type V = NetworkView;

    closed spec fn view(&self) -> NetworkView {
        NetworkView {
            devices: self.devices@.map_values(|d: Device| (d.device@, d.status)),
            wifis: self.live_wifis@.map_values(|w: Wifi| w@),
            known: string_views(self.known_wifis@),
            current: match self.current_wifi {
                Some(b) => Some(b@),
                None => None,
            },
            init: self.init,
        }
    }
}

fn contains_text(v: &Vec<String>, t: &String) -> (r: bool)
    ensures
        r == string_views(v@).contains(t@),
{
    let mut i: usize = 0;
    while i < v.len()
        invariant
            i <= v.len(),
            forall|k: int| 0 <= k < i ==> v@[k]@ != t@,
        decreases v.len() - i,
    {
        if v[i] == *t {
            assert(string_views(v@)[i as int] == t@);
            return true;
        }
        i = i + 1;
    }
    assert forall|k: int| 0 <= k < string_views(v@).len() implies string_views(v@)[k] != t@ by {
        assert(v@[k]@ != t@);
    }
    false
}

impl Network {
    /// A network panel that has read nothing yet.
    pub fn new() -> (r: Network)
        ensures
            r@.devices.len() == 0,
            r@.wifis.len() == 0,
            r@.known.len() == 0,
            r@.current is None,
            !r@.init,
    {
        Network {
            devices: Vec::new(),
            live_wifis: Vec::new(),
            known_wifis: Vec::new(),
            current_wifi: None,
            init: false,
        }
    }

    pub fn is_ready(&self) -> (r: bool)
        ensures
            r == self@.init,
    {
        self.init
    }

    /// Reads a device listing: one device per row, named by the row's first field.
    pub fn get_devices(&mut self, listing: &str)
        ensures
            final(self)@.devices == lines_of(listing@).map_values(
                |l: Seq<char>| (device_name(l), true),
            ),
            final(self)@.wifis == old(self)@.wifis,
            final(self)@.known == old(self)@.known,
            final(self)@.current == old(self)@.current,
            final(self)@.init == old(self)@.init,
    {
        let mut cur = LineCursor::new(listing);
        let ghost ls = cur@;
        let mut devices: Vec<Device> = Vec::new();
        assert(ls.skip(0) =~= ls);
        while !cur.is_done()
            invariant
                ls == lines_of(listing@),
                devices.len() <= ls.len(),
                cur@ == ls.skip(devices.len() as int),
                devices@.map_values(|d: Device| (d.device@, d.status)) == ls.subrange(
                    0,
                    devices.len() as int,
                ).map_values(|l: Seq<char>| (device_name(l), true)),
            decreases cur@.len(),
        {
            let ghost j = devices.len() as int;
            let l = cur.next().unwrap();
            assert(ls.skip(j)[0] == ls[j]);
            assert(ls.skip(j).drop_first() =~= ls.skip(j + 1));
            let mut f = split_row(&l);
            proof {
                lemma_fields_nonempty(l@, 0, seq![]);
            }
            assert(string_views(f@)[0] == f@[0]@);
            let device = take_field(&mut f, 0);
            assert(device@ == device_name(ls[j]));
            let ghost before = devices@;
            devices.push(Device { device, status: true });
            assert(devices@.map_values(|d: Device| (d.device@, d.status)) =~= before.map_values(
                |d: Device| (d.device@, d.status),
            ).push((device_name(ls[j]), true)));
            assert(ls.subrange(0, j + 1).map_values(|l: Seq<char>| (device_name(l), true))
                =~= ls.subrange(0, j).map_values(|l: Seq<char>| (device_name(l), true)).push(
                (device_name(ls[j]), true),
            ));
            assert(devices@.map_values(|d: Device| (d.device@, d.status)) =~= ls.subrange(
                0,
                j + 1,
            ).map_values(|l: Seq<char>| (device_name(l), true)));
        }
        assert(ls.subrange(0, devices.len() as int) =~= ls);
        self.devices = devices;
    }

    /// Reads an access point listing. Every row must be well formed: the first that is
    /// not refuses the whole listing and leaves everything as it was. The access point in
    /// use is the last row that carries the mark, if any.
    pub fn scan_wifi(&mut self, listing: &str) -> (r: Result<(), RowError>)
        ensures
            ({
                let ls = lines_of(listing@);
                &&& rows_valid(ls) ==> r is Ok && final(self)@.wifis == ls.map_values(
                    |l: Seq<char>| row_wifi(l),
                ) && final(self)@.current == marked_bssid(ls, ls.len() as int)
                    && final(self)@.devices == old(self)@.devices && final(self)@.known == old(
                    self,
                )@.known && final(self)@.init == old(self)@.init
                &&& !rows_valid(ls) ==> (r matches Err(RowError::MalformedRow(k)) && first_bad_row(
                    ls,
                    k as int,
                ) && final(self)@ == old(self)@)
            }),
    {
        let mut cur = LineCursor::new(listing);
        let ghost ls = cur@;
        let mut wifis: Vec<Wifi> = Vec::new();
        let mut current: Option<String> = None;
        assert(ls.skip(0) =~= ls);
        while !cur.is_done()
            invariant
                ls == lines_of(listing@),
                wifis.len() <= ls.len(),
                cur@ == ls.skip(wifis.len() as int),
                forall|i: int| 0 <= i < wifis.len() ==> #[trigger] wifi_row(ls[i]) is Some,
                wifis@.map_values(|w: Wifi| w@) == ls.subrange(0, wifis.len() as int).map_values(
                    |l: Seq<char>| row_wifi(l),
                ),
                match current {
                    Some(b) => marked_bssid(ls, wifis.len() as int) == Some(b@),
                    None => marked_bssid(ls, wifis.len() as int) is None,
                },
            decreases cur@.len(),
        {
            let ghost j = wifis.len() as int;
            let l = cur.next().unwrap();
            assert(ls.skip(j)[0] == ls[j]);
            assert(ls.skip(j).drop_first() =~= ls.skip(j + 1));
            match parse_wifi_row(&l) {
                Some((w, marked)) => {
                    if marked {
                        current = Some(w.bssid.clone());
                    }
                    let ghost before = wifis@;
                    assert(wifi_row(ls[j]) is Some);
                    assert(row_wifi(ls[j]) == w@);
                    wifis.push(w);
                    assert(wifis@.map_values(|w: Wifi| w@) =~= before.map_values(|w: Wifi| w@).push(
                        row_wifi(ls[j]),
                    ));
                    assert(ls.subrange(0, j + 1).map_values(|l: Seq<char>| row_wifi(l))
                        =~= ls.subrange(0, j).map_values(|l: Seq<char>| row_wifi(l)).push(
                        row_wifi(ls[j]),
                    ));
                },
                None => {
                    return Err(RowError::MalformedRow(wifis.len()));
                },
            }
        }
        assert(ls.subrange(0, wifis.len() as int) =~= ls);
        self.live_wifis = wifis;
        self.current_wifi = current;
        Ok(())
    }

    /// Reads a listing of saved connections: the text before the first semicolon of each
    /// row, each name once, in the order first met.
    pub fn get_known_wifi(&mut self, listing: &str)
        ensures
            final(self)@.known == dedup(lines_of(listing@).map_values(|l: Seq<char>| known_name(l))),
            final(self)@.devices == old(self)@.devices,
            final(self)@.wifis == old(self)@.wifis,
            final(self)@.current == old(self)@.current,
            final(self)@.init == old(self)@.init,
    {
        let mut cur = LineCursor::new(listing);
        let ghost ls = cur@;
        let ghost names = ls.map_values(|l: Seq<char>| known_name(l));
        let mut known: Vec<String> = Vec::new();
        let ghost mut j: int = 0;
        assert(ls.skip(0) =~= ls);
        while !cur.is_done()
            invariant
                ls == lines_of(listing@),
                names == ls.map_values(|l: Seq<char>| known_name(l)),
                0 <= j <= ls.len(),
                cur@ == ls.skip(j),
                string_views(known@) == dedup(names.subrange(0, j)),
            decreases cur@.len(),
        {
            let l = cur.next().unwrap();
            assert(ls.skip(j)[0] == ls[j]);
            assert(ls.skip(j).drop_first() =~= ls.skip(j + 1));
            let k = find_char(&l, ';', 0);
            let name = string_of(&l, 0, k);
            assert(names.subrange(0, j + 1).drop_last() =~= names.subrange(0, j));
            if !contains_text(&known, &name) {
                known.push(name);
                assert(string_views(known@) =~= string_views(known@.drop_last()).push(names[j]));
            }
            proof {
                j = j + 1;
            }
        }
        assert(names.subrange(0, j) =~= names);
        self.known_wifis = known;
    }

    /// Reads the three listings of a first look: access points, devices and saved
    /// connections. A malformed access point listing refuses all three and leaves
    /// everything as it was.
    pub fn init(&mut self, devices: &str, wifis: &str, known: &str) -> (r: Result<(), RowError>)
        ensures
            ({
                let ls = lines_of(wifis@);
                &&& rows_valid(ls) ==> r is Ok && final(self)@.init && final(self)@.wifis
                    == ls.map_values(|l: Seq<char>| row_wifi(l)) && final(self)@.current
                    == marked_bssid(ls, ls.len() as int) && final(self)@.devices == lines_of(
                    devices@,
                ).map_values(|l: Seq<char>| (device_name(l), true)) && final(self)@.known
                    == dedup(lines_of(known@).map_values(|l: Seq<char>| known_name(l)))
                &&& !rows_valid(ls) ==> (r matches Err(RowError::MalformedRow(k)) && first_bad_row(
                    ls,
                    k as int,
                ) && final(self)@ == old(self)@)
            }),
    {
        match self.scan_wifi(wifis) {
            Err(e) => return Err(e),
            Ok(()) => {},
        }
        self.get_devices(devices);
        self.get_known_wifi(known);
        self.init = true;
        Ok(())
    }

    /// The devices, in the order listed.
    pub fn devices(&self) -> (r: &Vec<Device>)
        ensures
            r@.map_values(|d: Device| (d.device@, d.status)) == self@.devices,
    {
        &self.devices
    }

    /// The access points in range, in the order listed.
    pub fn wifis(&self) -> (r: &Vec<Wifi>)
        ensures
            r@.map_values(|w: Wifi| w@) == self@.wifis,
    {
        &self.live_wifis
    }

    /// The saved connections.
    pub fn known_wifis(&self) -> (r: &Vec<String>)
        ensures
            string_views(r@) == self@.known,
    {
        &self.known_wifis
    }

    /// Whether an access point in range has hardware address `bssid`.
    pub fn has_wifi(&self, bssid: &str) -> (r: bool)
        ensures
            r == (exists|i: int| 0 <= i < self@.wifis.len() && self@.wifis[i].bssid == bssid@),
    {
        let b = crate::text::chars_of(bssid);
        let mut i: usize = 0;
        while i < self.live_wifis.len()
            invariant
                i <= self.live_wifis.len(),
                forall|k: int| 0 <= k < i ==> self.live_wifis@[k].bssid@ != bssid@,
            decreases self.live_wifis.len() - i,
        {
            let w = crate::text::chars_of(self.live_wifis[i].bssid.as_str());
            assert(w@.subrange(0, w.len() as int) =~= w@);
            if range_is(&w, 0, w.len(), bssid) {
                assert(self@.wifis[i as int] == self.live_wifis@[i as int]@);
                return true;
            }
            i = i + 1;
        }
        assert forall|k: int| 0 <= k < self@.wifis.len() implies self@.wifis[k].bssid != bssid@ by {
            assert(self@.wifis[k] == self.live_wifis@[k]@);
        }
        false
    }

    /// Makes the access point with hardware address `bssid` the one in use, when one in
    /// range has that address.
    pub fn set_current_wifi(&mut self, bssid: &str) -> (r: bool)
        ensures
            r == (exists|i: int| 0 <= i < old(self)@.wifis.len() && old(self)@.wifis[i].bssid
                == bssid@),
            r ==> final(self)@.current == Some(bssid@),
            !r ==> final(self)@.current == old(self)@.current,
            final(self)@.devices == old(self)@.devices,
            final(self)@.wifis == old(self)@.wifis,
            final(self)@.known == old(self)@.known,
            final(self)@.init == old(self)@.init,
    {
        if self.has_wifi(bssid) {
            let mut n = String::new();
            crate::text::push_text(&mut n, bssid);
            self.current_wifi = Some(n);
            true
        } else {
            false
        }
    }

    /// The hardware address of the access point in use.
    pub fn current_wifi(&self) -> (r: Option<String>)
        ensures
            r matches Some(b) ==> self@.current == Some(b@),
            r is None ==> self@.current is None,
    {
        match &self.current_wifi {
            Some(b) => Some(b.clone()),
            None => None,
        }
    }
}

impl Default for Network {
    fn default() -> (r: Network)
        ensures
            r@.devices.len() == 0,
            r@.wifis.len() == 0,
            r@.known.len() == 0,
            r@.current is None,
            !r@.init,
    {
        Network::new()
    }
}

/// In a listing that reads, the access point of a row whose hardware address field is
/// `addr` with its colons escaped has `addr` as its address, real colons restored, and
/// `addr` is six octets of two hex digits.
pub proof fn lemma_scanned_address(
    ls: Seq<Seq<char>>,
    i: int,
    mark: Seq<char>,
    addr: Seq<char>,
    rest: Seq<char>,
)
    requires
        rows_valid(ls),
        0 <= i < ls.len(),
        ls[i] == mark + ":"@ + escape_colons(addr) + ":"@ + rest,
        free_of_separators(mark),
        forall|k: int| 0 <= k < addr.len() ==> #[trigger] addr[k] != '\\',
    ensures
        row_wifi(ls[i]).bssid == addr,
        is_hw_address(addr),
        octets(addr).len() == 6,
        forall|k: int| 0 <= k < 6 ==> (#[trigger] octets(addr)[k]).len() == 2,
{
    assert(wifi_row(ls[i]) is Some);
    lemma_escaped_address(mark, addr, rest);
}

} // verus!
