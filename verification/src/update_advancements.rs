//! The clientbound "update advancements" packet and the data it carries.
use vstd::prelude::*;
use crate::ser::{
    all_fit, all_strings_fit, lemma_var_uint_len, bool_bytes, fits_protocol_string, fits_string, flat, lemma_flat_take_step,
    nbt_string_bytes, string_bytes, string_list_bytes, utf8, var_int_bytes, write_bool, write_mc_string,
    write_slice, write_string, write_string_list, write_u8, write_var_int,
};

verus! {

/// The NBT key under which a criterion's identifier is stored.
pub const CRITERIA_IDENTIFIER_KEY: &'static str = "minecraft:criteria_identifier";

/// The background written for a display without one of its own.
pub const DEFAULT_BACKGROUND_TEXTURE: &'static str = "minecraft:textures/gui/advancements/task_background.png";

/// The NBT tag id of a string.
pub const NBT_STRING_TAG: u8 = 8;

/// The bytes of a criterion as NBT: the string tag, the key, then the identifier.
pub open spec fn criterion_nbt_bytes(identifier: Seq<char>) -> Seq<u8> {
    seq![NBT_STRING_TAG] + nbt_string_bytes(CRITERIA_IDENTIFIER_KEY@) + nbt_string_bytes(identifier)
}

/// Encodes a criterion's identifier as an NBT string tag.
pub fn criterion_to_nbt(identifier: &str) -> (r: Vec<u8>)
    ensures
        r@ == criterion_nbt_bytes(identifier@),
{
    let mut buf: Vec<u8> = Vec::new();
    buf.push(NBT_STRING_TAG);
    write_mc_string(&mut buf, CRITERIA_IDENTIFIER_KEY);
    write_mc_string(&mut buf, identifier);
    buf
}

/// The frame drawn around an advancement's icon.
#[derive(Clone, Copy, Debug, PartialEq, Eq)]
pub enum AdvancementFrameType {
    Task,
    Goal,
    Challenge,
}

impl AdvancementFrameType {
    /// The number that stands for the frame on the wire.
    pub open spec fn protocol_id(self) -> i32 {
        match self {
            AdvancementFrameType::Task => 0,
            AdvancementFrameType::Goal => 1,
            AdvancementFrameType::Challenge => 2,
        }
    }

    /// The number that stands for the frame on the wire.
    pub fn to_protocol_id(&self) -> (r: i32)
        ensures
            r == self.protocol_id(),
    {
        match self {
            AdvancementFrameType::Task => 0i32,
            AdvancementFrameType::Goal => 1i32,
            AdvancementFrameType::Challenge => 2i32,
        }
    }
}

/// An advancement as the client is told of it.
#[derive(Clone, Debug)]
pub struct Advancement {
    pub id: String,
    pub parent_id: Option<String>,
    pub display_data: Option<AdvancementDisplayData>,
    pub criteria: Vec<String>,
    pub requirements: Vec<Vec<String>>,
}

/// How an advancement is shown in the advancements screen.
#[derive(Clone, Debug)]
pub struct AdvancementDisplayData {
    pub title: String,
    pub description: String,
    pub frame_type: AdvancementFrameType,
    pub flags: u8,
    pub icon: String,
    pub background_texture: Option<String>,
}

/// `String::from` on a string slice (std's `impl From<&str> for String`) makes a
/// `String` with the slice's characters, as its documentation says.
pub assume_specification<'a, 'b>[ <String as From<&'a str>>::from ](s: &'b str) -> (r: String)
    ensures
        r@ == s@,
;

/// `From::from` of a value into its own type (std's `impl<T> From<T> for T`) gives the
/// value back unchanged, as its documentation says.
pub assume_specification<Q>[ <Q as From<Q>>::from ](q: Q) -> (r: Q)
    ensures
        r == q,
;

/// A criterion of an advancement's progress.
#[derive(Clone, Debug)]
pub struct Criteria {
    pub identifier: String,
}

impl Criteria {
    /// Makes a criterion with the given identifier.
    pub fn new<T: Into<String>>(identifier: T) -> (r: Self)
        ensures
            call_ensures(<T as Into<String>>::into, (identifier,), r.identifier),
    {
        Self { identifier: identifier.into() }
    }
}

/// A flag followed, when present, by a protocol string.
pub open spec fn optional_string_bytes(o: Option<Seq<char>>) -> Seq<u8> {
    match o {
        Some(s) => seq![1u8] + string_bytes(s),
        None => seq![0u8],
    }
}

/// Whether an optional string is absent or fits in a protocol string.
pub open spec fn optional_fits(o: Option<Seq<char>>) -> bool {
    match o {
        Some(s) => fits_protocol_string(s),
        None => true,
    }
}

/// The view of an optional `String`: its characters, when present.
pub open spec fn opt_view(o: Option<String>) -> Option<Seq<char>> {
    match o {
        Some(s) => Some(s@),
        None => None,
    }
}

/// A list of strings, as a function on lists of strings.
pub open spec fn requirement_item() -> spec_fn(Vec<String>) -> Seq<u8> {
    |r: Vec<String>| string_list_bytes(r@)
}

/// An advancement's bytes, as a function on advancements.
pub open spec fn advancement_item() -> spec_fn(Advancement) -> Seq<u8> {
    |a: Advancement| a.spec_bytes()
}

/// A progress entry's bytes: the advancement id, then its criterion as NBT.
pub open spec fn progress_item() -> spec_fn((String, Criteria)) -> Seq<u8> {
    |p: (String, Criteria)| string_bytes(p.0@) + criterion_nbt_bytes(p.1.identifier@)
}

impl AdvancementDisplayData {
    /// The background that is written: the display's own, else the default one.
    pub open spec fn background(self) -> Seq<char> {
        match self.background_texture {
            Some(b) => b@,
            None => DEFAULT_BACKGROUND_TEXTURE@,
        }
    }

    /// Whether every string the display writes fits in a protocol string.
    pub open spec fn fits(self) -> bool {
        &&& fits_protocol_string(self.title@)
        &&& fits_protocol_string(self.description@)
        &&& fits_protocol_string(self.icon@)
        &&& optional_fits(opt_view(self.background_texture))
    }

    /// The display's bytes on the wire.
    pub open spec fn spec_bytes(self) -> Seq<u8> {
        string_bytes(self.title@) + string_bytes(self.description@) + var_int_bytes(
            self.frame_type.protocol_id(),
        ) + seq![self.flags] + string_bytes(self.icon@) + string_bytes(self.background())
    }
}

/// A flag followed, when present, by the display's bytes.
pub open spec fn optional_display_bytes(o: Option<AdvancementDisplayData>) -> Seq<u8> {
    match o {
        Some(d) => seq![1u8] + d.spec_bytes(),
        None => seq![0u8],
    }
}

impl Advancement {
    /// Whether every string the advancement writes fits in a protocol string.
    pub open spec fn fits(self) -> bool {
        &&& fits_protocol_string(self.id@)
        &&& optional_fits(opt_view(self.parent_id))
        &&& (self.display_data matches Some(d) ==> d.fits())
        &&& all_fit(self.criteria@)
        &&& forall|i: int|
            0 <= i < self.requirements@.len() ==> all_fit(#[trigger] self.requirements@[i]@)
    }

    /// The advancement's bytes on the wire.
    pub open spec fn spec_bytes(self) -> Seq<u8> {
        string_bytes(self.id@) + optional_string_bytes(opt_view(self.parent_id))
            + optional_display_bytes(self.display_data) + string_list_bytes(self.criteria@)
            + var_int_bytes(self.requirements@.len() as i32) + flat(
            self.requirements@,
            requirement_item(),
        )
    }
}

/// Whether the default background fits in a protocol string.
proof fn lemma_default_background_fits()
    ensures
        fits_protocol_string(DEFAULT_BACKGROUND_TEXTURE@),
{
    reveal_strlit("minecraft:textures/gui/advancements/task_background.png");
    lemma_utf8_len_bound(DEFAULT_BACKGROUND_TEXTURE@);
}

/// A string's UTF-8 encoding takes at most four bytes per character.
pub proof fn lemma_utf8_len_bound(s: Seq<char>)
    ensures
        utf8(s).len() <= 4 * s.len(),
    decreases s.len(),
{
    if s.len() > 0 {
        lemma_utf8_len_bound(s.drop_first());
    }
}

/// Appends an optional string: a flag, then the string when present.
fn write_optional_string(buf: &mut Vec<u8>, o: &Option<String>)
    requires
        optional_fits(opt_view(*o)),
    ensures
        final(buf)@ == old(buf)@ + optional_string_bytes(opt_view(*o)),
{
    match o {
        Some(s) => {
            write_bool(buf, true);
            write_string(buf, s.as_str());
        },
        None => {
            write_bool(buf, false);
        },
    }
}

/// Appends a display, preceded by the flag that says one is present.
fn write_display(buf: &mut Vec<u8>, d: &AdvancementDisplayData)
    requires
        d.fits(),
    ensures
        final(buf)@ == old(buf)@ + seq![1u8] + d.spec_bytes(),
{
    write_bool(buf, true);
    write_string(buf, d.title.as_str());
    write_string(buf, d.description.as_str());
    let frame_int = d.frame_type.to_protocol_id();
    write_var_int(buf, frame_int);
    write_u8(buf, d.flags);
    write_string(buf, d.icon.as_str());
    match &d.background_texture {
        Some(b) => {
            write_string(buf, b.as_str());
        },
        None => {
            proof {
                lemma_default_background_fits();
            }
            write_string(buf, DEFAULT_BACKGROUND_TEXTURE);
        },
    }
}

/// Appends a list of requirement groups: their number, then each group as a list.
fn write_requirements(buf: &mut Vec<u8>, reqs: &[Vec<String>])
    requires
        forall|i: int| 0 <= i < reqs@.len() ==> all_fit(#[trigger] reqs@[i]@),
    ensures
        final(buf)@ == old(buf)@ + var_int_bytes(reqs@.len() as i32) + flat(
            reqs@,
            requirement_item(),
        ),
{
    write_var_int(buf, reqs.len() as i32);
    let ghost start = buf@;
    let mut i: usize = 0;
    while i < reqs.len()
        invariant
            i <= reqs@.len(),
            forall|j: int| 0 <= j < reqs@.len() ==> all_fit(#[trigger] reqs@[j]@),
            buf@ == start + flat(reqs@.take(i as int), requirement_item()),
        decreases reqs@.len() - i,
    {
        assert(all_fit(reqs@[i as int]@));
        write_string_list(buf, reqs[i].as_slice());
        proof {
            lemma_flat_take_step(reqs@, requirement_item(), i as int);
        }
        i = i + 1;
    }
    assert(reqs@.take(reqs@.len() as int) =~= reqs@);
}

/// Appends one advancement.
fn write_advancement(buf: &mut Vec<u8>, adv: &Advancement)
    requires
        adv.fits(),
    ensures
        final(buf)@ == old(buf)@ + adv.spec_bytes(),
{
    let ghost b0 = buf@;
    write_string(buf, adv.id.as_str());
    let ghost b01 = buf@;
    write_optional_string(buf, &adv.parent_id);
    let ghost b1 = buf@;
    match &adv.display_data {
        Some(d) => {
            write_display(buf, d);
        },
        None => {
            write_bool(buf, false);
        },
    }
    assert(buf@ == b1 + optional_display_bytes(adv.display_data));
    let ghost b2 = buf@;
    write_string_list(buf, adv.criteria.as_slice());
    let ghost b3 = buf@;
    write_requirements(buf, adv.requirements.as_slice());
    let ghost p_id = string_bytes(adv.id@);
    let ghost p_parent = optional_string_bytes(opt_view(adv.parent_id));
    let ghost p_disp = optional_display_bytes(adv.display_data);
    let ghost p_crit = string_list_bytes(adv.criteria@);
    let ghost p_req = var_int_bytes(adv.requirements@.len() as i32) + flat(
        adv.requirements@,
        requirement_item(),
    );
    assert(b01 == b0 + p_id);
    assert(b1 == b01 + p_parent);
    assert(b2 == b1 + p_disp);
    assert(b3 == b2 + p_crit);
    assert(buf@ == b3 + p_req);
    assert(adv.spec_bytes() == p_id + p_parent + p_disp + p_crit + p_req);
    assert(buf@ =~= b0 + (p_id + p_parent + p_disp + p_crit + p_req));
}

/// Whether every string of the optional value fits in a protocol string.
fn optional_string_fits(o: &Option<String>) -> (r: bool)
    ensures
        r == optional_fits(opt_view(*o)),
{
    match o {
        Some(s) => fits_string(s.as_str()),
        None => true,
    }
}

impl AdvancementDisplayData {
    /// Whether every string the display writes fits in a protocol string.
    pub fn strings_fit(&self) -> (r: bool)
        ensures
            r == self.fits(),
    {
        fits_string(self.title.as_str()) && fits_string(self.description.as_str())
            && fits_string(self.icon.as_str()) && optional_string_fits(&self.background_texture)
    }
}

impl Advancement {
    /// Whether every string the advancement writes fits in a protocol string.
    pub fn strings_fit(&self) -> (r: bool)
        ensures
            r == self.fits(),
    {
        if !fits_string(self.id.as_str()) || !optional_string_fits(&self.parent_id) {
            return false;
        }
        match &self.display_data {
            Some(d) => {
                if !d.strings_fit() {
                    return false;
                }
            },
            None => {},
        }
        if !all_strings_fit(self.criteria.as_slice()) {
            return false;
        }
        let mut i: usize = 0;
        while i < self.requirements.len()
            invariant
                i <= self.requirements@.len(),
                forall|j: int| 0 <= j < i ==> all_fit(#[trigger] self.requirements@[j]@),
            decreases self.requirements@.len() - i,
        {
            if !all_strings_fit(self.requirements[i].as_slice()) {
                return false;
            }
            i = i + 1;
        }
        true
    }
}

/// The packet that tells the client about advancements and their progress.
pub struct CUpdateAdvancements<'a> {
    pub reset: bool,
    pub advancements: &'a [Advancement],
    pub identifiers: &'a [String],
    pub progress: &'a [(String, Criteria)],
}

impl<'a> CUpdateAdvancements<'a> {
    /// Makes the packet from its parts.
    pub fn new(
        reset: bool,
        advancements: &'a [Advancement],
        identifiers: &'a [String],
        progress: &'a [(String, Criteria)],
    ) -> (r: Self)
        ensures
            r.reset == reset,
            r.advancements == advancements,
            r.identifiers == identifiers,
            r.progress == progress,
    {
        Self { reset, advancements, identifiers, progress }
    }

    /// Whether every string the packet writes fits in a protocol string.
    pub open spec fn fits(&self) -> bool {
        &&& forall|i: int|
            0 <= i < self.advancements@.len() ==> (#[trigger] self.advancements@[i]).fits()
        &&& all_fit(self.identifiers@)
        &&& forall|i: int|
            0 <= i < self.progress@.len() ==> fits_protocol_string(
                (#[trigger] self.progress@[i]).0@,
            )
    }

    /// The packet's bytes on the wire.
    pub open spec fn spec_bytes(&self) -> Seq<u8> {
        bool_bytes(self.reset) + var_int_bytes(self.advancements@.len() as i32) + flat(
            self.advancements@,
            advancement_item(),
        ) + string_list_bytes(self.identifiers@) + var_int_bytes(self.progress@.len() as i32)
            + flat(self.progress@, progress_item())
    }

    /// Whether every string the packet writes fits in a protocol string.
    pub fn strings_fit(&self) -> (r: bool)
        ensures
            r == self.fits(),
    {
        let mut i: usize = 0;
        while i < self.advancements.len()
            invariant
                i <= self.advancements@.len(),
                forall|j: int| 0 <= j < i ==> (#[trigger] self.advancements@[j]).fits(),
            decreases self.advancements@.len() - i,
        {
            if !self.advancements[i].strings_fit() {
                return false;
            }
            i = i + 1;
        }
        if !all_strings_fit(self.identifiers) {
            return false;
        }
        let mut k: usize = 0;
        while k < self.progress.len()
            invariant
                k <= self.progress@.len(),
                forall|j: int| 0 <= j < k ==> fits_protocol_string((#[trigger] self.progress@[j]).0@),
            decreases self.progress@.len() - k,
        {
            if !fits_string(self.progress[k].0.as_str()) {
                return false;
            }
            k = k + 1;
        }
        true
    }

    /// Appends the packet's bytes to `buf`.
    pub fn write_packet_data(&self, buf: &mut Vec<u8>)
        requires
            self.fits(),
        ensures
            final(buf)@ == old(buf)@ + self.spec_bytes(),
    {
        write_bool(buf, self.reset);
        write_var_int(buf, self.advancements.len() as i32);
        let ghost start = buf@;
        let mut i: usize = 0;
        while i < self.advancements.len()
            invariant
                i <= self.advancements@.len(),
                self.fits(),
                buf@ == start + flat(self.advancements@.take(i as int), advancement_item()),
            decreases self.advancements@.len() - i,
        {
            assert(self.advancements@[i as int].fits());
            write_advancement(buf, &self.advancements[i]);
            proof {
                lemma_flat_take_step(self.advancements@, advancement_item(), i as int);
            }
            i = i + 1;
        }
        assert(self.advancements@.take(self.advancements@.len() as int) =~= self.advancements@);
        write_string_list(buf, self.identifiers);
        write_var_int(buf, self.progress.len() as i32);
        let ghost mid = buf@;
        let mut k: usize = 0;
        while k < self.progress.len()
            invariant
                k <= self.progress@.len(),
                self.fits(),
                buf@ == mid + flat(self.progress@.take(k as int), progress_item()),
            decreases self.progress@.len() - k,
        {
            let (adv_id, criteria) = &self.progress[k];
            assert(fits_protocol_string(self.progress@[k as int].0@));
            write_string(buf, adv_id.as_str());
            let criterion_bytes = criterion_to_nbt(criteria.identifier.as_str());
            write_slice(buf, criterion_bytes.as_slice());
            proof {
                lemma_flat_take_step(self.progress@, progress_item(), k as int);
            }
            k = k + 1;
        }
        assert(self.progress@.take(self.progress@.len() as int) =~= self.progress@);
    }
}

/// The VarInt just before the progress entries counts the progress entries: a packet's
/// bytes are those of the same packet without progress, less its final count byte, then
/// the number of progress entries and the entries.
pub proof fn law_progress_count_precedes_entries<'a, 'b>(
    pk: CUpdateAdvancements<'a>,
    head: CUpdateAdvancements<'b>,
)
    requires
        head.reset == pk.reset,
        head.advancements@ == pk.advancements@,
        head.identifiers@ == pk.identifiers@,
        head.progress@.len() == 0,
    ensures
        head.spec_bytes().last() == 0,
        pk.spec_bytes() == head.spec_bytes().drop_last() + var_int_bytes(pk.progress@.len() as i32)
            + flat(pk.progress@, progress_item()),
{
    let before = bool_bytes(pk.reset) + var_int_bytes(pk.advancements@.len() as i32) + flat(
        pk.advancements@,
        advancement_item(),
    ) + string_list_bytes(pk.identifiers@);
    assert(flat(head.progress@, progress_item()) =~= Seq::<u8>::empty());
    assert(var_int_bytes(0) =~= seq![0u8]);
    assert(head.spec_bytes() =~= before + seq![0u8]);
    assert((before + seq![0u8]).drop_last() =~= before);
}

/// A packet's bytes begin with its reset flag and then the number of advancements.
pub proof fn law_packet_starts_with_reset_and_count<'a>(pk: CUpdateAdvancements<'a>)
    ensures
        pk.spec_bytes().len() >= 2,
        pk.spec_bytes()[0] == (if pk.reset {
            1u8
        } else {
            0u8
        }),
        pk.spec_bytes().subrange(1, 1 + var_int_bytes(pk.advancements@.len() as i32).len() as int)
            == var_int_bytes(pk.advancements@.len() as i32),
{
    lemma_var_uint_len(pk.advancements@.len() as i32 as u32);
    let c = var_int_bytes(pk.advancements@.len() as i32);
    let rest = flat(pk.advancements@, advancement_item()) + string_list_bytes(pk.identifiers@)
        + var_int_bytes(pk.progress@.len() as i32) + flat(pk.progress@, progress_item());
    assert(pk.spec_bytes() =~= bool_bytes(pk.reset) + c + rest);
    assert(pk.spec_bytes().subrange(1, 1 + c.len() as int) =~= c);
}

} // verus!
