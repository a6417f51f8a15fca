//! From what was found in the bays to what the grid shows of them.

use num_format::{Locale, ToFormattedString};
use vstd::prelude::*;
use vstd::string::*;
use crate::colors::{lemma_index_of, lemma_seen_after_distinct, seen_after};
use crate::console_widget::{
    line_texts, models, rendered, texts, ConsoleViewer, LabelModel, SlotLabel, SlotLine,
    SlotState, StateModel, ALERT_LOCATING,
};
use crate::enclosure::Enclosure;
use crate::layout::SlotPrintOrder;
use crate::err::{SError, SResult};
use crate::lsblk::{entries, LsblkEntry};
use crate::parse::{
    chars_of, decimal, digit_char, ends_with, parse_number, parsed_number, push_chars,
    push_decimal, replace, replaced, starts_with,
};
use crate::text::{push_repeated, repeated, same_text};
use crate::zfs::{PoolModel, ZfsList};

verus! {

/// The bytes of a gigabyte.
pub const GIGABYTE: usize = 1000000000;

/// Whether a missing attribute is shown by a note in its place.
pub const ENABLE_NOT_FOUND: bool = false;

/// What was found in one bay of the enclosure.
pub struct Bay {
    /// The number of the bay, counted from zero.
    pub slot_id: usize,
    /// Whether the indicator light of the bay is on.
    pub locating: bool,
    /// The name of the block device in the bay.
    pub block_name: Option<String>,
    /// The identifier of the device.
    pub wwid: Option<String>,
    /// The vendor of the device. The grid does not show it.
    pub vendor: Option<String>,
    /// The model of the device.
    pub model: Option<String>,
}

/// What was found in one bay, as text.
pub struct BayModel {
    pub slot_id: nat,
    pub locating: bool,
    pub block_name: Option<Seq<char>>,
    pub wwid: Option<Seq<char>>,
    pub vendor: Option<Seq<char>>,
    pub model: Option<Seq<char>>,
}

/// The text of an attribute that may be absent.
pub open spec fn text_of_option(o: Option<String>) -> Option<Seq<char>> {
    match o {
        Some(s) => Some(s@),
        None => None,
    }
}

impl View for Bay {
    type V = BayModel;

    open spec fn view(&self) -> BayModel {
        BayModel {
            slot_id: self.slot_id as nat,
            locating: self.locating,
            block_name: text_of_option(self.block_name),
            wwid: text_of_option(self.wwid),
            vendor: text_of_option(self.vendor),
            model: text_of_option(self.model),
        }
    }
}

/// A number below a thousand in three digits.
pub open spec fn three_digits(n: nat) -> Seq<char> {
    seq![
        digit_char((n / 100) as int),
        digit_char(((n / 10) % 10) as int),
        digit_char((n % 10) as int),
    ]
}

/// `n` in decimal notation, its digits in groups of three from the right
/// with a comma between the groups.
pub open spec fn grouped(n: nat) -> Seq<char>
    decreases n,
{
    if n < 1000 {
        decimal(n)
    } else {
        grouped(n / 1000) + seq![','] + three_digits(n % 1000)
    }
}

/// `num_format::ToFormattedString::to_formatted_string` for `usize`, called
/// with `num_format::Locale::en`. That locale separates groups with a comma
/// and groups by three; the crate writes the decimal digits from the right
/// and puts the separator before every fourth, seventh, ... digit that it
/// writes. Believed, not proved.
#[verifier::external_body]
fn grouped_text(n: usize) -> (r: String)
    ensures
        r@ == grouped(n as nat),
{
    n.to_formatted_string(&Locale::en)
}

/// The note that stands in the place of a missing attribute.
pub fn not_found(msg: &str) -> (r: String)
    ensures
        r@ == (if ENABLE_NOT_FOUND {
            msg@
        } else {
            Seq::<char>::empty()
        }),
{
    if ENABLE_NOT_FOUND {
        msg.to_owned()
    } else {
        String::new()
    }
}

/// The pool that owns `device`: the first of `pools` that has a member of
/// that name.
pub open spec fn pool_of_device(pools: Seq<PoolModel>, device: Seq<char>) -> Option<Seq<char>>
    decreases pools.len(),
{
    if pools.len() == 0 {
        None
    } else if pools[0].vdevs.contains(device) {
        Some(pools[0].name)
    } else {
        pool_of_device(pools.drop_first(), device)
    }
}

/// The size of `device`: what the first entry of that name in the listing of
/// block devices states.
pub open spec fn size_of_device(listing: Seq<(Seq<char>, Seq<char>)>, device: Seq<char>) -> Option<
    Seq<char>,
>
    decreases listing.len(),
{
    if listing.len() == 0 {
        None
    } else if listing[0].0 == device {
        Some(listing[0].1)
    } else {
        size_of_device(listing.drop_first(), device)
    }
}

/// The group by which a device is coloured, which is also the left part of
/// its heading: its pool, or a mark for a device that no pool owns.
pub open spec fn group_of_device(pools: Seq<PoolModel>, device: Seq<char>) -> Seq<char> {
    match pool_of_device(pools, device) {
        Some(name) => "ZFS "@ + name,
        None => "__"@,
    }
}

/// A size in whole gigabytes.
pub open spec fn size_line(bytes: nat) -> Seq<char> {
    grouped(bytes / (GIGABYTE as nat)) + " G"@
}

/// The line that states the size of the device in a bay: empty where the
/// bay is empty or the listing does not name the device, and missing where
/// the listing states no number of bytes that the machine can hold.
pub open spec fn size_text(bay: BayModel, listing: Seq<(Seq<char>, Seq<char>)>) -> Option<
    Seq<char>,
> {
    match bay.block_name {
        None => Some(Seq::empty()),
        Some(device) => match size_of_device(listing, device) {
            None => Some(Seq::empty()),
            Some(bytes) => match parsed_number(bytes) {
                Some(n) => if n <= usize::MAX {
                    Some(size_line(n))
                } else {
                    None
                },
                None => None,
            },
        },
    }
}

/// The text of an attribute, empty where it is absent.
pub open spec fn or_empty(o: Option<Seq<char>>) -> Seq<char> {
    match o {
        Some(s) => s,
        None => Seq::empty(),
    }
}

/// The heading of a bay: before it the number of the bay and a space, behind
/// it the alert where the indicator light is on. A device is headed by its
/// group and its name, an empty bay by the word `Empty`.
pub open spec fn label_of_bay(bay: BayModel, pools: Seq<PoolModel>) -> LabelModel {
    LabelModel {
        content_start: match bay.block_name {
            Some(device) => group_of_device(pools, device),
            None => Seq::empty(),
        },
        content_end: match bay.block_name {
            Some(device) => device,
            None => "Empty"@,
        },
        prefix: Some(decimal(bay.slot_id) + " "@),
        suffix: if bay.locating {
            Some("🚨"@)
        } else {
            None
        },
    }
}

/// What a bay shows: its heading, and below it the identifier of the device,
/// the identifier in its other notation, the model, and the size.
pub open spec fn state_of_bay(
    bay: BayModel,
    pools: Seq<PoolModel>,
    listing: Seq<(Seq<char>, Seq<char>)>,
) -> StateModel {
    StateModel {
        group: match bay.block_name {
            Some(device) => Some(group_of_device(pools, device)),
            None => None,
        },
        label: label_of_bay(bay, pools),
        lines: seq![
            or_empty(bay.wwid),
            replaced(or_empty(bay.wwid), "naa."@, "wwn-0x"@),
            or_empty(bay.model),
            or_empty(size_text(bay, listing)),
        ],
    }
}

fn find_pool<'a>(zfs_list: &'a ZfsList, device: &str) -> (r: Option<&'a String>)
    ensures
        text_of_option_ref(r) == pool_of_device(zfs_list@, device@),
{
    let mut i: usize = 0;
    assert(zfs_list@.skip(0) =~= zfs_list@);
    while i < zfs_list.pools.len()
        invariant
            i <= zfs_list.pools@.len(),
            pool_of_device(zfs_list@, device@) == pool_of_device(zfs_list@.skip(i as int), device@),
        decreases zfs_list.pools@.len() - i,
    {
        let pool = &zfs_list.pools[i];
        let ghost rest = zfs_list@.skip(i as int);
        assert(rest[0] == pool@);
        let mut k: usize = 0;
        while k < pool.vdevs.len()
            invariant
                k <= pool.vdevs@.len(),
                rest[0] == pool@,
                rest.len() > 0,
                pool_of_device(zfs_list@, device@) == pool_of_device(rest, device@),
                forall|j: int| 0 <= j < k ==> pool@.vdevs[j] != device@,
            decreases pool.vdevs@.len() - k,
        {
            if same_text(pool.vdevs[k].vdev_name.as_str(), device) {
                assert(pool@.vdevs[k as int] == device@);
                return Some(&pool.pool_name);
            }
            k = k + 1;
        }
        proof {
            assert(!pool@.vdevs.contains(device@));
            assert(rest.drop_first() =~= zfs_list@.skip(i + 1));
        }
        i = i + 1;
    }
    None
}

/// The text of a borrowed attribute that may be absent.
pub open spec fn text_of_option_ref(o: Option<&String>) -> Option<Seq<char>> {
    match o {
        Some(s) => Some(s@),
        None => None,
    }
}

fn find_size<'a>(lsblk_list: &'a Vec<LsblkEntry>, device: &str) -> (r: Option<&'a String>)
    ensures
        text_of_option_ref(r) == size_of_device(entries(lsblk_list@), device@),
{
    let mut i: usize = 0;
    assert(entries(lsblk_list@).skip(0) =~= entries(lsblk_list@));
    while i < lsblk_list.len()
        invariant
            i <= lsblk_list@.len(),
            size_of_device(entries(lsblk_list@), device@) == size_of_device(
                entries(lsblk_list@).skip(i as int),
                device@,
            ),
        decreases lsblk_list@.len() - i,
    {
        let ghost rest = entries(lsblk_list@).skip(i as int);
        assert(rest[0] == lsblk_list@[i as int]@);
        if same_text(lsblk_list[i].device.as_str(), device) {
            return Some(&lsblk_list[i].bytes);
        }
        proof {
            assert(rest.drop_first() =~= entries(lsblk_list@).skip(i + 1));
        }
        i = i + 1;
    }
    None
}

fn size_of_bay(bay: &Bay, lsblk_list: &Vec<LsblkEntry>) -> (r: SResult<String>)
    ensures
        match size_text(bay@, entries(lsblk_list@)) {
            Some(text) => r matches Ok(line) && line@ == text,
            None => r matches Err(SError::SizeNaN { device }) && Some(device@)
                == bay@.block_name,
        },
{
    let device: &String = match &bay.block_name {
        Some(device) => device,
        None => {
            return Ok(not_found("no_lsblk"));
        },
    };
    let stated: &String = match find_size(lsblk_list, device.as_str()) {
        Some(bytes) => bytes,
        None => {
            return Ok(not_found("no_lsblk"));
        },
    };
    let digits = chars_of(stated.as_str());
    match parse_number(digits.as_slice()) {
        Some(bytes) => {
            let mut line = grouped_text(bytes / GIGABYTE);
            line.append(" G");
            Ok(line)
        },
        None => Err(SError::SizeNaN { device: device.clone() }),
    }
}

/// What the bay shows, given the pools and the sizes of the block devices.
/// There is nothing to show where the listing of block devices names the
/// device of the bay and states no number of bytes for it.
pub fn slot_state(bay: &Bay, zfs_list: &ZfsList, lsblk_list: &Vec<LsblkEntry>) -> (r: SResult<
    SlotState,
>)
    ensures
        match size_text(bay@, entries(lsblk_list@)) {
            Some(_) => r matches Ok(state) && state@ == state_of_bay(
                bay@,
                zfs_list@,
                entries(lsblk_list@),
            ),
            None => r matches Err(SError::SizeNaN { device }) && Some(device@)
                == bay@.block_name,
        },
{
    let device_flag: Option<&'static str> = if bay.locating {
        Some(ALERT_LOCATING)
    } else {
        None
    };
    let mut number = String::new();
    push_decimal(&mut number, bay.slot_id);
    number.append(" ");
    assert(number@ =~= decimal(bay.slot_id as nat) + " "@);
    let prefix = Some(number);

    let size = match size_of_bay(bay, lsblk_list) {
        Ok(line) => line,
        Err(e) => {
            return Err(e);
        },
    };
    let wwid: String = match &bay.wwid {
        Some(wwid) => wwid.clone(),
        None => not_found("no_wwid"),
    };
    let model: String = match &bay.model {
        Some(model) => model.clone(),
        None => not_found("no_model_file"),
    };
    proof {
        reveal_strlit("naa.");
        reveal_strlit("wwn-0x");
    }
    let wwn = replace(
        chars_of(wwid.as_str()).as_slice(),
        chars_of("naa.").as_slice(),
        chars_of("wwn-0x").as_slice(),
    );
    let mut lines: Vec<SlotLine> = Vec::new();
    lines.push(SlotLine { line: wwid });
    lines.push(SlotLine { line: wwn });
    lines.push(SlotLine { line: model });
    lines.push(SlotLine { line: size });

    let state = match &bay.block_name {
        Some(device) => {
            let key: String = match find_pool(zfs_list, device.as_str()) {
                Some(pool_name) => {
                    let mut key = "ZFS ".to_owned();
                    key.append(pool_name.as_str());
                    key
                },
                None => "__".to_owned(),
            };
            SlotState::Device(
                key.clone(),
                SlotLabel {
                    content_start: key,
                    content_end: device.clone(),
                    prefix,
                    suffix: device_flag,
                },
                lines,
            )
        },
        None => SlotState::Empty(
            SlotLabel {
                content_start: String::new(),
                content_end: "Empty".to_owned(),
                prefix,
                suffix: device_flag,
            },
            lines,
        ),
    };
    proof {
        let want = state_of_bay(bay@, zfs_list@, entries(lsblk_list@));
        assert(state@.lines =~= want.lines);
        assert(state@.label == want.label);
        assert(state@.group == want.group);
    }
    Ok(state)
}

/// What was found in each bay, as text.
pub open spec fn bay_models(bays: Seq<Bay>) -> Seq<BayModel> {
    Seq::new(bays.len(), |i: int| bays[i]@)
}

/// The first of the first `upto` bays for whose device the listing of block
/// devices states no number of bytes.
pub open spec fn first_without_size(
    bays: Seq<BayModel>,
    listing: Seq<(Seq<char>, Seq<char>)>,
    upto: int,
) -> Option<int>
    decreases upto,
{
    if upto <= 0 {
        None
    } else {
        match first_without_size(bays, listing, upto - 1) {
            Some(i) => Some(i),
            None => if size_text(bays[upto - 1], listing) is None {
                Some(upto - 1)
            } else {
                None
            },
        }
    }
}

/// What the bays show.
pub open spec fn states_of_bays(
    bays: Seq<BayModel>,
    pools: Seq<PoolModel>,
    listing: Seq<(Seq<char>, Seq<char>)>,
) -> Seq<StateModel> {
    Seq::new(bays.len(), |i: int| state_of_bay(bays[i], pools, listing))
}

/// What each of the bays shows, by the number of the bay; or the first bay
/// of which there is nothing to show.
pub fn slot_states(bays: &Vec<Bay>, zfs_list: &ZfsList, lsblk_list: &Vec<LsblkEntry>) -> (r:
    SResult<Vec<SlotState>>)
    ensures
        match first_without_size(bay_models(bays@), entries(lsblk_list@), bays@.len() as int) {
            None => r matches Ok(states) && models(states@) == states_of_bays(
                bay_models(bays@),
                zfs_list@,
                entries(lsblk_list@),
            ),
            Some(i) => r matches Err(SError::SizeNaN { device }) && 0 <= i < bays@.len() && Some(
                device@,
            ) == bays@[i]@.block_name,
        },
{
    let mut states: Vec<SlotState> = Vec::new();
    let mut i: usize = 0;
    while i < bays.len()
        invariant
            i <= bays@.len(),
            states@.len() == i,
            first_without_size(bay_models(bays@), entries(lsblk_list@), i as int) is None,
            forall|j: int|
                0 <= j < i ==> (#[trigger] states@[j])@ == state_of_bay(
                    bays@[j]@,
                    zfs_list@,
                    entries(lsblk_list@),
                ),
        decreases bays@.len() - i,
    {
        match slot_state(&bays[i], zfs_list, lsblk_list) {
            Ok(state) => states.push(state),
            Err(e) => {
                proof {
                    lemma_first_without_size(
                        bay_models(bays@),
                        entries(lsblk_list@),
                        i as int,
                        bays@.len() as int,
                    );
                }
                return Err(e);
            },
        }
        i = i + 1;
    }
    assert(models(states@) =~= states_of_bays(bay_models(bays@), zfs_list@, entries(lsblk_list@)));
    Ok(states)
}

/// The first bay without a size stays the first, however many bays follow.
pub proof fn lemma_first_without_size(
    bays: Seq<BayModel>,
    listing: Seq<(Seq<char>, Seq<char>)>,
    i: int,
    upto: int,
)
    requires
        0 <= i < upto,
        first_without_size(bays, listing, i) is None,
        size_text(bays[i], listing) is None,
    ensures
        first_without_size(bays, listing, upto) == Some(i),
    decreases upto - i,
{
    if upto > i + 1 {
        lemma_first_without_size(bays, listing, i, upto - 1);
    }
}

/// How many characters at the end of a line the presentation hides.
pub const BLANKING: usize = 8;

/// A line as the presentation shows it: a size as it is, of any other line
/// the last eight characters, or all where there are fewer, as zeros.
pub open spec fn blanked(line: Seq<char>) -> Seq<char> {
    if " G"@.is_suffix_of(line) {
        line
    } else if line.len() < BLANKING {
        repeated('0', line.len() as int)
    } else {
        line.take(line.len() - BLANKING) + repeated('0', BLANKING as int)
    }
}

/// A left part of a heading that names a pool.
pub open spec fn is_pool_name(name: Seq<char>) -> bool {
    "ZFS"@.is_prefix_of(name)
}

/// The names of pools among the headings of the first `upto` bays, in the
/// order in which each is first seen.
pub open spec fn pools_before(states: Seq<StateModel>, upto: int) -> Seq<Seq<char>>
    decreases upto,
{
    if upto <= 0 {
        Seq::empty()
    } else if is_pool_name(states[upto - 1].label.content_start) {
        seen_after(pools_before(states, upto - 1), states[upto - 1].label.content_start)
    } else {
        pools_before(states, upto - 1)
    }
}

/// The left part of the heading of bay `i` as the presentation shows it: in
/// place of the name of a pool the word `pool` and the number at which the
/// name was first seen, counted from zero.
pub open spec fn presented_name(states: Seq<StateModel>, i: int) -> Seq<char> {
    let name = states[i].label.content_start;
    if is_pool_name(name) {
        "ZFS pool"@ + decimal(pools_before(states, i + 1).index_of(name) as nat)
    } else {
        name
    }
}

/// What the bays show in a presentation, which hides what identifies the
/// devices and the pools. The groups by which the bays are coloured stay.
pub open spec fn presented(states: Seq<StateModel>) -> Seq<StateModel> {
    Seq::new(
        states.len(),
        |i: int|
            StateModel {
                group: states[i].group,
                label: LabelModel {
                    content_start: presented_name(states, i),
                    content_end: states[i].label.content_end,
                    prefix: states[i].label.prefix,
                    suffix: states[i].label.suffix,
                },
                lines: states[i].lines.map_values(|line: Seq<char>| blanked(line)),
            },
    )
}

fn blank_line(line: &str) -> (r: String)
    ensures
        r@ == blanked(line@),
{
    proof {
        reveal_strlit(" G");
    }
    let v = chars_of(line);
    if ends_with(v.as_slice(), chars_of(" G").as_slice()) {
        return line.to_owned();
    }
    let line_len: usize = v.len();
    let blanking: usize = if BLANKING < line_len {
        BLANKING
    } else {
        line_len
    };
    let mut out = String::new();
    push_chars(&mut out, v.as_slice(), 0, line_len - blanking);
    push_repeated(&mut out, '0', blanking);
    assert(out@ =~= blanked(line@));
    out
}

fn blank_lines(lines: &Vec<SlotLine>) -> (r: Vec<SlotLine>)
    ensures
        line_texts(r@) == line_texts(lines@).map_values(|line: Seq<char>| blanked(line)),
{
    let mut out: Vec<SlotLine> = Vec::new();
    let mut k: usize = 0;
    while k < lines.len()
        invariant
            k <= lines@.len(),
            out@.len() == k,
            forall|j: int| 0 <= j < k ==> (#[trigger] out@[j])@ == blanked(lines@[j]@),
        decreases lines@.len() - k,
    {
        out.push(SlotLine { line: blank_line(lines[k].line.as_str()) });
        k = k + 1;
    }
    assert(line_texts(out@) =~= line_texts(lines@).map_values(|line: Seq<char>| blanked(line)));
    out
}

/// The pools seen never stand twice.
pub proof fn lemma_pools_before(states: Seq<StateModel>, upto: int)
    ensures
        pools_before(states, upto).no_duplicates(),
    decreases upto,
{
    if upto > 0 {
        lemma_pools_before(states, upto - 1);
        lemma_seen_after_distinct(
            pools_before(states, upto - 1),
            states[upto - 1].label.content_start,
        );
    }
}

/// Hides what identifies the devices and the pools.
pub fn anonymize(states: &mut Vec<SlotState>)
    ensures
        models(final(states)@) == presented(models(old(states)@)),
{
    let ghost before = models(states@);
    let mut bad_pools: Vec<String> = Vec::new();
    let mut shown: Vec<SlotState> = Vec::new();
    let mut i: usize = 0;
    proof {
        reveal_strlit("ZFS");
        assert(texts(bad_pools@) =~= pools_before(before, 0));
    }
    while i < states.len()
        invariant
            i <= states@.len(),
            *states == *old(states),
            before == models(states@),
            shown@.len() == i,
            texts(bad_pools@) == pools_before(before, i as int),
            forall|j: int| 0 <= j < i ==> (#[trigger] shown@[j])@ == presented(before)[j],
        decreases states@.len() - i,
    {
        let state = &states[i];
        assert(state@ == before[i as int]);
        let label = state.label();
        let lines = blank_lines(state.lines());
        let bad_name = &label.content_start;
        let name = chars_of(bad_name.as_str());
        let content_start: String = if starts_with(name.as_slice(), chars_of("ZFS").as_slice()) {
            let ghost seen = texts(bad_pools@);
            proof {
                lemma_pools_before(before, i as int);
                lemma_seen_after_distinct(seen, bad_name@);
            }
            let mut safe_pos: usize = 0;
            while safe_pos < bad_pools.len() && !same_text(
                bad_pools[safe_pos].as_str(),
                bad_name.as_str(),
            )
                invariant
                    safe_pos <= bad_pools@.len(),
                    seen == texts(bad_pools@),
                    forall|j: int| 0 <= j < safe_pos ==> seen[j] != bad_name@,
                decreases bad_pools@.len() - safe_pos,
            {
                safe_pos = safe_pos + 1;
            }
            if safe_pos == bad_pools.len() {
                assert(!seen.contains(bad_name@));
                bad_pools.push(bad_name.clone());
                assert(texts(bad_pools@) =~= seen.push(bad_name@));
            } else {
                assert(seen[safe_pos as int] == bad_name@);
            }
            proof {
                assert(texts(bad_pools@) == pools_before(before, i + 1));
                assert(texts(bad_pools@)[safe_pos as int] == bad_name@);
                lemma_index_of(texts(bad_pools@), safe_pos as int);
            }
            let mut shown_name = "ZFS pool".to_owned();
            push_decimal(&mut shown_name, safe_pos);
            shown_name
        } else {
            bad_name.clone()
        };
        let shown_label = SlotLabel {
            content_start,
            content_end: label.content_end.clone(),
            prefix: label.prefix.clone(),
            suffix: label.suffix,
        };
        let shown_state = match state {
            SlotState::Device(group_key, _, _) => SlotState::Device(
                group_key.clone(),
                shown_label,
                lines,
            ),
            SlotState::Empty(_, _) => SlotState::Empty(shown_label, lines),
        };
        assert(shown_state@ == presented(before)[i as int]);
        shown.push(shown_state);
        i = i + 1;
    }
    *states = shown;
    assert(models(states@) =~= presented(before));
}

/// The text of an attribute, empty where reading it failed.
pub open spec fn read_or_empty(read: SResult<String>) -> Seq<char> {
    match read {
        Ok(text) => text@,
        Err(_) => Seq::empty(),
    }
}

/// The title of the grid: vendor, model and name of the enclosure.
pub open spec fn title_text(vendor: Seq<char>, model: Seq<char>, enc_id: Seq<char>) -> Seq<char> {
    vendor + " "@ + model + " - "@ + enc_id
}

/// The title of the grid: vendor, model and name of the enclosure.
pub fn title(vendor: &SResult<String>, model: &SResult<String>, enc_id: &str) -> (r: String)
    ensures
        r@ == title_text(read_or_empty(*vendor), read_or_empty(*model), enc_id@),
{
    let mut out = String::new();
    match vendor {
        Ok(text) => out.append(text.as_str()),
        Err(_) => out.append(not_found("no_vendor").as_str()),
    }
    out.append(" ");
    match model {
        Ok(text) => out.append(text.as_str()),
        Err(_) => out.append(not_found("no_model").as_str()),
    }
    out.append(" - ");
    out.append(enc_id);
    assert(out@ =~= title_text(read_or_empty(*vendor), read_or_empty(*model), enc_id@));
    out
}

/// Whether a shelf is drawn for a presentation, unless the caller says
/// otherwise.
pub const PRESENTATION_MODE: bool = true;

/// What the bays show on the grid: for a presentation, with what identifies
/// devices and pools hidden.
pub open spec fn shown_states(
    presentation_mode: bool,
    bays: Seq<BayModel>,
    pools: Seq<PoolModel>,
    listing: Seq<(Seq<char>, Seq<char>)>,
) -> Seq<StateModel> {
    if presentation_mode {
        presented(states_of_bays(bays, pools, listing))
    } else {
        states_of_bays(bays, pools, listing)
    }
}

/// Draws the shelf from what was found: the bays of `enclosure`, the pools,
/// and the sizes of the block devices, in rows of `width` bays, with the
/// first bay of each column in the bottom row.
pub fn shelf(
    width: usize,
    presentation_mode: bool,
    enclosure: &Enclosure,
    vendor: &SResult<String>,
    model: &SResult<String>,
    bays: &Vec<Bay>,
    zfs_list: &ZfsList,
    lsblk_list: &Vec<LsblkEntry>,
) -> (r: SResult<String>)
    ensures
        match first_without_size(bay_models(bays@), entries(lsblk_list@), bays@.len() as int) {
            Some(i) => r matches Err(SError::SizeNaN { device }) && 0 <= i < bays@.len() && Some(
                device@,
            ) == bays@[i]@.block_name,
            None => match rendered(
                SlotPrintOrder::BottomLeftGoingUp,
                width,
                Some(title_text(read_or_empty(*vendor), read_or_empty(*model), enclosure.id())),
                shown_states(
                    presentation_mode,
                    bay_models(bays@),
                    zfs_list@,
                    entries(lsblk_list@),
                ),
            ) {
                Ok(text) => r matches Ok(drawn) && drawn@ == text,
                Err(e) => r == Err::<String, SError>(e),
            },
        },
{
    let mut states = match slot_states(bays, zfs_list, lsblk_list) {
        Ok(states) => states,
        Err(e) => {
            return Err(e);
        },
    };
    if presentation_mode {
        anonymize(&mut states);
    }
    let title = title(vendor, model, enclosure.enc_id());
    let viewer = ConsoleViewer {
        title: Some(title),
        width,
        slot_order: SlotPrintOrder::BottomLeftGoingUp,
    };
    viewer.render(states.as_slice())
}

} // verus!
