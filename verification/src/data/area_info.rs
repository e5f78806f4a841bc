use vstd::prelude::*;
use vstd::string::*;
use crate::random::random_below;

verus! {

/// One entry of the area table: a name, the kind of map generator that
/// builds the area (zero for none in particular), and the colour of its
/// walls as a hex string.
#[derive(Clone, Debug, PartialEq, Eq)]
pub struct AreaInfo {
    pub name: String,
    pub map_type: usize,
    pub color_hex: String,
}

/// The area table: an area is made of one prefix and one base entry.
#[derive(Clone, Debug)]
pub struct AreaData {
    pub prefixes: Vec<AreaInfo>,
    pub areas: Vec<AreaInfo>,
}

pub struct AreaInfoView {
    pub name: Seq<char>,
    pub map_type: usize,
    pub color_hex: Seq<char>,
}

impl View for AreaInfo {
    type V = AreaInfoView;

    open spec fn view(&self) -> AreaInfoView {
        AreaInfoView { name: self.name@, map_type: self.map_type, color_hex: self.color_hex@ }
    }
}

/// The colour of an entry that names none.
pub open spec fn default_color_hex() -> Seq<char> {
    "#FFFFFF"@
}

/// The area that a prefix and a base entry make together. The name is the
/// two names with a blank between them; the generator is that of the base
/// entry unless it has none; the colour is that of the prefix unless it has
/// none.
pub open spec fn combined(prefix: AreaInfoView, area: AreaInfoView) -> AreaInfoView {
    AreaInfoView {
        name: prefix.name + " "@ + area.name,
        map_type: if area.map_type != 0 {
            area.map_type
        } else {
            prefix.map_type
        },
        color_hex: if prefix.color_hex != default_color_hex() {
            prefix.color_hex
        } else {
            area.color_hex
        },
    }
}

/// The colour of an entry that names none.
pub fn default_color() -> (color: String)
    ensures
        color@ == default_color_hex(),
{
    String::from_str("#FFFFFF")
}

/// The name of the area: that of the prefix, a blank, that of the base
/// entry.
pub fn get_combined_name(prefix: &AreaInfo, area: &AreaInfo) -> (name: String)
    ensures
        name@ == combined(prefix@, area@).name,
{
    let mut name = prefix.name.clone();
    name.append(" ");
    name.append(area.name.as_str());
    name
}

/// The generator of the area: that of the base entry, unless it names
/// none.
pub fn get_combined_generator(prefix: &AreaInfo, area: &AreaInfo) -> (map_type: usize)
    ensures
        map_type == combined(prefix@, area@).map_type,
{
    if area.map_type != 0 {
        area.map_type
    } else if prefix.map_type != 0 {
        prefix.map_type
    } else {
        0
    }
}

/// The colour of the area: that of the prefix, unless it names none.
pub fn get_combined_color(prefix: &AreaInfo, area: &AreaInfo) -> (color: String)
    ensures
        color@ == combined(prefix@, area@).color_hex,
{
    let plain = default_color();
    if !(prefix.color_hex == plain) {
        prefix.color_hex.clone()
    } else if !(area.color_hex == plain) {
        area.color_hex.clone()
    } else {
        plain
    }
}

/// The area that the given prefix and base entry make together.
pub fn combine_area(prefix: &AreaInfo, area: &AreaInfo) -> (info: AreaInfo)
    ensures
        info@ == combined(prefix@, area@),
{
    AreaInfo {
        name: get_combined_name(prefix, area),
        map_type: get_combined_generator(prefix, area),
        color_hex: get_combined_color(prefix, area),
    }
}

/// An area made of a prefix and a base entry of the table, each drawn at
/// random.
pub fn get_random_area(rng: &mut rltk::RandomNumberGenerator, data: &AreaData) -> (info: AreaInfo)
    requires
        data.prefixes@.len() > 0,
        data.areas@.len() > 0,
    ensures
        exists|p: int, a: int|
            0 <= p < data.prefixes@.len() && 0 <= a < data.areas@.len() && info@ == combined(
                (#[trigger] data.prefixes@[p])@,
                (#[trigger] data.areas@[a])@,
            ),
{
    let prefix_index = random_below(rng, data.prefixes.len());
    let area_index = random_below(rng, data.areas.len());
    combine_area(&data.prefixes[prefix_index], &data.areas[area_index])
}

} // verus!
