use vstd::prelude::*;
use vstd::string::StringExecFns;

use crate::colour::Colour;
use crate::error::Error;
use crate::hash::chunk_of;
use crate::hash::hex_chunks_parse;
use crate::hash::hex_number;
use crate::hash::hex_of;
use crate::hash::hex_of_is_hex;
use crate::hash::index_array_of_a_digest;
use crate::hash::indices_of;
use crate::hash::is_index_array;
use crate::hash::sha512_digest;
use crate::hash::sha512_of;
use crate::hash::split_hash;
use crate::image::all_of_size;
use crate::image::all_usable;
use crate::image::build_fails_with;
use crate::image::build_robo_hash_image;
use crate::image::canvas_fits;
use crate::image::composes;
use crate::image::composing_is_determined;
use crate::image::content;
use crate::image::contents;
use crate::image::encodes;
use crate::image::encoding_fails;
use crate::image::layer_stack;
use crate::image::to_base_64;
use crate::image::Raster;
use crate::materials::catalog;
use crate::materials::catalog_of;
use crate::materials::entry_path;
use crate::materials::listed;
use crate::materials::CategoryListing;
use crate::materials::order_by_tag;
use crate::materials::path_of_entry;
use crate::selection::enough_slots;
use crate::selection::pick_assets;
use crate::selection::selection;
use crate::set_type::SetType;
use crate::text::texts;

pub mod colour;
pub mod error;
pub mod hash;
pub mod image;
pub mod materials;
pub mod order;
pub mod selection;
pub mod set_type;
pub mod text;

verus! {

/// The number of chunks a digest is cut into.
pub const HASH_CHUNKS: usize = 11;

/// The slot of the index array that a derived colour is chosen by.
pub const COLOUR_SLOT: usize = 0;

/// The slot of the index array that a derived set is chosen by.
pub const SET_SLOT: usize = 1;

/// The slot of the index array that the first category with assets is
/// served from. The slots before it are kept for the set, the colour and
/// the background.
pub const FIRST_CATEGORY_SLOT: usize = 4;

/// The size of an image in pixels.
#[derive(PartialEq, Eq, Structural, Clone, Copy, Debug)]
pub struct ImageSize {
    pub width: u32,
    pub height: u32,
}

impl ImageSize {
    /// The size of an image where none is asked for.
    pub fn default() -> (size: Self)
        ensures
            size == (ImageSize { width: 1024, height: 1024 }),
    {
        Self { width: 1024, height: 1024 }
    }
}

/// The index array of a text: the eleven indices of its digest, twice over,
/// so that there are slots for up to eighteen categories.
pub open spec fn index_array(text: Seq<char>) -> Seq<i64> {
    let chunks = indices_of(hex_of(sha512_of(text)), HASH_CHUNKS as int);
    chunks + chunks
}

/// Whether the colour is derived from the index array and not taken from
/// the caller: where a set that has colours is asked for in any colour, and
/// where a set that has none is asked for in a colour.
pub open spec fn derives_colour(colour: Colour, set: SetType) -> bool {
    ||| set.colour_bearing() && colour == Colour::Any
    ||| !set.colour_bearing() && colour != Colour::Any
}

/// The colour that an index array gives.
pub open spec fn derived_colour(indices: Seq<i64>) -> Colour {
    Colour::candidates()[indices[COLOUR_SLOT as int] as int % Colour::candidates().len() as int]
}

/// The set that an index array gives.
pub open spec fn derived_set(indices: Seq<i64>) -> SetType {
    SetType::candidates()[indices[SET_SLOT as int] as int % SetType::candidates().len() as int]
}

/// The colour of an avatar.
pub open spec fn chosen_colour(indices: Seq<i64>, colour: Colour, set: SetType) -> Colour {
    if derives_colour(colour, set) {
        derived_colour(indices)
    } else {
        colour
    }
}

/// The set of an avatar: the one asked for, or the one the index array
/// gives where none was.
pub open spec fn chosen_set(indices: Seq<i64>, set: SetType) -> SetType {
    if set == SetType::Default {
        derived_set(indices)
    } else {
        set
    }
}

/// The path of a set below the root of the catalog: a set that has colours
/// is followed by the colour, every other set stands alone.
pub open spec fn set_path(set: SetType, colour: Colour) -> Seq<char> {
    match colour.segment() {
        Some(name) if set.colour_bearing() => entry_path(set.segment(), name),
        _ => set.segment(),
    }
}

/// The colour that the index array gives.
pub fn random_colour(hash_array: &Vec<i64>) -> (colour: Colour)
    requires
        hash_array.len() > COLOUR_SLOT,
        hash_array[COLOUR_SLOT as int] >= 0,
    ensures
        colour == derived_colour(hash_array@),
        colour != Colour::Any,
{
    let available_colours = Colour::all_candidates();
    let selected_index = (hash_array[COLOUR_SLOT] as u64 % available_colours.len() as u64) as usize;
    proof {
        Colour::candidates_are_the_concrete_colours();
    }
    available_colours[selected_index]
}

/// Chooses the colour of an avatar of the given set.
pub fn colour_selection(hash_array: &Vec<i64>, colour: &Colour, set: &SetType) -> (chosen: Colour)
    requires
        derives_colour(*colour, *set) ==> hash_array.len() > COLOUR_SLOT
            && hash_array[COLOUR_SLOT as int] >= 0,
    ensures
        chosen == chosen_colour(hash_array@, *colour, *set),
        set.colour_bearing() ==> chosen != Colour::Any,
{
    let is_any = *colour == Colour::Any;
    let has_colours = set.is_colour_bearing();
    if (has_colours && is_any) || (!has_colours && !is_any) {
        random_colour(hash_array)
    } else {
        *colour
    }
}

/// Chooses the set of an avatar.
pub fn selected_set(hash_array: &Vec<i64>, set: &SetType) -> (chosen: SetType)
    requires
        *set == SetType::Default ==> hash_array.len() > SET_SLOT && hash_array[SET_SLOT as int]
            >= 0,
    ensures
        chosen == chosen_set(hash_array@, *set),
        chosen != SetType::Default,
{
    if *set == SetType::Default {
        let sets = SetType::all_candidates();
        let selected_index = (hash_array[SET_SLOT] as u64 % sets.len() as u64) as usize;
        sets[selected_index]
    } else {
        *set
    }
}

/// Whether `text` is an avatar of the given size assembled from a stack of
/// files: the base64 text of the PNG file of an image that the files
/// compose.
pub open spec fn assembles(stack: Seq<Seq<u8>>, size: ImageSize, text: Seq<char>) -> bool {
    exists|image: Raster| #[trigger]
        composes(stack, size.width, size.height, image) && encodes(image, text)
}

/// Whether assembling fails at the encoder: every file can be used, and
/// the files compose an image that cannot be written.
pub open spec fn assembling_fails_to_encode(stack: Seq<Seq<u8>>, size: ImageSize) -> bool {
    &&& canvas_fits(size.width, size.height)
    &&& all_usable(stack, size.width, size.height)
    &&& exists|image: Raster| #[trigger]
        composes(stack, size.width, size.height, image) && encoding_fails(image)
}

/// What a builder holds.
pub struct Request {
    pub text: Seq<char>,
    pub set: SetType,
    pub set_root: Seq<char>,
    pub colour: Colour,
    pub image_size: ImageSize,
}

/// What is needed to assemble an avatar, as a builder has worked it out.
pub struct Plan {
    pub image_size: ImageSize,
    pub hash_array: Seq<i64>,
    pub set: Seq<char>,
    pub sets_root: Seq<char>,
}

impl Plan {
    /// Whether nothing can be assembled: the index array, the path of the
    /// set or the root of the catalog is empty.
    pub open spec fn is_missing_required_data(self) -> bool {
        self.hash_array.len() == 0 || self.set.len() == 0 || self.sets_root.len() == 0
    }

    /// The directory of the set.
    pub open spec fn set_directory(self) -> Seq<char> {
        entry_path(self.sets_root, self.set)
    }
}

/// The plan that a request is built into.
pub open spec fn built(request: Request) -> Plan {
    let indices = index_array(request.text);
    let set = chosen_set(indices, request.set);
    let colour = chosen_colour(indices, request.colour, set);
    Plan {
        image_size: request.image_size,
        hash_array: indices,
        set: set_path(set, colour),
        sets_root: request.set_root,
    }
}

/// Collects what an avatar is asked with: the text it stands for, the set
/// and the colour, the root of the catalog and the size of the image.
pub struct RoboHashBuilder {
    text: String,
    set: SetType,
    set_root: String,
    colour: Colour,
    image_size: ImageSize,
}

impl View for RoboHashBuilder {
    type V = Request;

    closed spec fn view(&self) -> Request {
        Request {
            text: self.text@,
            set: self.set,
            set_root: self.set_root@,
            colour: self.colour,
            image_size: self.image_size,
        }
    }
}

impl RoboHashBuilder {
    /// A request for the avatar of `text`: no set and no colour asked for,
    /// the catalog under `./sets`, an image of 1024 by 1024 pixels.
    pub fn new(text: &str) -> (builder: Self)
        ensures
            builder@ == (Request {
                text: text@,
                set: SetType::Default,
                set_root: "./sets"@,
                colour: Colour::Any,
                image_size: ImageSize { width: 1024, height: 1024 },
            }),
    {
        let set = SetType::Default;
        let colour = Colour::Any;
        let set_root = String::from_str("./sets");
        let image_size = ImageSize::default();
        Self { text: String::from_str(text), set, set_root, colour, image_size }
    }

    /// Asks for a set.
    pub fn with_set(self, set: SetType) -> (builder: RoboHashBuilder)
        ensures
            builder@ == (Request { set, ..self@ }),
    {
        RoboHashBuilder {
            text: self.text,
            set,
            set_root: self.set_root,
            colour: self.colour,
            image_size: self.image_size,
        }
    }

    /// Names the root of the catalog.
    pub fn with_set_location(self, set_location: &str) -> (builder: RoboHashBuilder)
        ensures
            builder@ == (Request { set_root: set_location@, ..self@ }),
    {
        RoboHashBuilder {
            text: self.text,
            set: self.set,
            set_root: String::from_str(set_location),
            colour: self.colour,
            image_size: self.image_size,
        }
    }

    /// Asks for a colour.
    pub fn with_colour(self, colour: Colour) -> (builder: RoboHashBuilder)
        ensures
            builder@ == (Request { colour, ..self@ }),
    {
        RoboHashBuilder {
            text: self.text,
            set: self.set,
            set_root: self.set_root,
            colour,
            image_size: self.image_size,
        }
    }

    /// Asks for an image of another size.
    pub fn with_size(self, width: u32, height: u32) -> (builder: RoboHashBuilder)
        ensures
            builder@ == (Request { image_size: ImageSize { width, height }, ..self@ }),
    {
        RoboHashBuilder {
            text: self.text,
            set: self.set,
            set_root: self.set_root,
            colour: self.colour,
            image_size: ImageSize { width, height },
        }
    }

    pub fn text(&self) -> (text: &String)
        ensures
            text@ == self@.text,
    {
        &self.text
    }

    pub fn set(&self) -> (set: SetType)
        ensures
            set == self@.set,
    {
        self.set
    }

    pub fn set_root(&self) -> (set_root: &String)
        ensures
            set_root@ == self@.set_root,
    {
        &self.set_root
    }

    pub fn colour(&self) -> (colour: Colour)
        ensures
            colour == self@.colour,
    {
        self.colour
    }

    pub fn image_size(&self) -> (image_size: ImageSize)
        ensures
            image_size == self@.image_size,
    {
        self.image_size
    }

    /// Works out the plan of the avatar: the index array of the text, and
    /// the path of its set. This never fails.
    pub fn build(&self) -> (robo_hash: Result<RoboHash, Error>)
        ensures
            robo_hash matches Ok(plan) && plan@ == built(self@),
    {
        let hash = sha512_digest(self.text.as_str());
        proof {
            hex_of_is_hex(sha512_of(self.text@));
            hex_chunks_parse(hash@, HASH_CHUNKS as int);
        }
        let chunks = match split_hash(hash.as_str(), HASH_CHUNKS) {
            Ok(chunks) => chunks,
            Err(error) => {
                return Err(error);
            },
        };
        let mut hash_array = chunks.clone();
        let mut rest = chunks;
        hash_array.append(&mut rest);
        assert(hash_array@ =~= index_array(self.text@));
        let set = selected_set(&hash_array, &self.set);
        let colour = colour_selection(&hash_array, &self.colour, &set);
        let set_path = match colour.as_str() {
            Some(name) if set.is_colour_bearing() => path_of_entry(set.as_str(), name),
            _ => String::from_str(set.as_str()),
        };
        let sets_root = self.set_root.clone();
        Ok(RoboHash { image_size: self.image_size, hash_array, set: set_path, sets_root })
    }
}

/// The plan of one avatar. Its index array holds no negative number.
#[derive(Debug)]
pub struct RoboHash {
    image_size: ImageSize,
    hash_array: Vec<i64>,
    set: String,
    sets_root: String,
}

impl View for RoboHash {
    type V = Plan;

    closed spec fn view(&self) -> Plan {
        Plan {
            image_size: self.image_size,
            hash_array: self.hash_array@,
            set: self.set@,
            sets_root: self.sets_root@,
        }
    }
}

impl RoboHash {
    #[verifier::type_invariant]
    spec fn holds_an_index_array(self) -> bool {
        is_index_array(self.hash_array@)
    }

    /// A plan made of its parts.
    pub fn from_parts(
        image_size: ImageSize,
        hash_array: Vec<i64>,
        set: String,
        sets_root: String,
    ) -> (robo_hash: RoboHash)
        requires
            is_index_array(hash_array@),
        ensures
            robo_hash@ == (Plan {
                image_size,
                hash_array: hash_array@,
                set: set@,
                sets_root: sets_root@,
            }),
    {
        RoboHash { image_size, hash_array, set, sets_root }
    }

    pub fn image_size(&self) -> (image_size: ImageSize)
        ensures
            image_size == self@.image_size,
    {
        self.image_size
    }

    pub fn hash_array(&self) -> (hash_array: &Vec<i64>)
        ensures
            hash_array@ == self@.hash_array,
            is_index_array(hash_array@),
    {
        proof {
            use_type_invariant(self);
        }
        &self.hash_array
    }

    pub fn set(&self) -> (set: &String)
        ensures
            set@ == self@.set,
    {
        &self.set
    }

    pub fn sets_root(&self) -> (sets_root: &String)
        ensures
            sets_root@ == self@.sets_root,
    {
        &self.sets_root
    }

    /// Tells whether the plan lacks what every avatar needs.
    pub fn is_missing_required_data(&self) -> (missing: bool)
        ensures
            missing == self@.is_missing_required_data(),
    {
        self.hash_array.len() == 0 || self.set.as_str().is_empty()
            || self.sets_root.as_str().is_empty()
    }

    /// The directory whose categories are to be listed. A plan that misses
    /// required data is refused here, before anything is read.
    pub fn set_directory(&self) -> (directory: Result<String, Error>)
        ensures
            match directory {
                Ok(path) => !self@.is_missing_required_data() && path@ == self@.set_directory(),
                Err(error) => self@.is_missing_required_data() && error
                    == Error::RoboHashMissingRequiredData,
            },
    {
        if self.is_missing_required_data() {
            return Err(Error::RoboHashMissingRequiredData);
        }
        Ok(path_of_entry(self.sets_root.as_str(), self.set.as_str()))
    }

    /// Chooses the assets of the avatar from what was found in the
    /// directory of its set, and puts them into the order they are layered
    /// in. The categories and the files of each are taken in the lexical
    /// order of their names, in whatever order they are given.
    pub fn files_in_set(&self, listing: &Vec<CategoryListing>) -> (files: Result<Vec<String>, Error>)
        ensures
            match files {
                Ok(files) => {
                    &&& !self@.is_missing_required_data()
                    &&& enough_slots(
                        self@.hash_array,
                        catalog(self@.set_directory(), listed(listing@)),
                    )
                    &&& texts(files@) == selection(
                        self@.hash_array,
                        catalog(self@.set_directory(), listed(listing@)),
                    )
                },
                Err(error) => {
                    &&& self@.is_missing_required_data() || !enough_slots(
                        self@.hash_array,
                        catalog(self@.set_directory(), listed(listing@)),
                    )
                    &&& error == Error::RoboHashMissingRequiredData
                },
            },
    {
        let set_directory = match self.set_directory() {
            Ok(path) => path,
            Err(error) => {
                return Err(error);
            },
        };
        proof {
            use_type_invariant(self);
        }
        let categories = catalog_of(set_directory.as_str(), listing);
        let chosen = match pick_assets(&self.hash_array, &categories) {
            Ok(chosen) => chosen,
            Err(error) => {
                return Err(error);
            },
        };
        Ok(order_by_tag(&chosen))
    }

    /// Assembles the avatar from the files of its assets, given in the
    /// order they are layered in, over the background where there is one,
    /// and writes it as the base64 text of a PNG file. Where the image
    /// cannot be built, the error is that of building it; an error of the
    /// encoder comes only after every file was used.
    pub fn assemble_base64(&self, layers: &Vec<Vec<u8>>, background: &Option<Vec<u8>>) -> (assembled:
        Result<String, Error>)
        ensures
            match assembled {
                Ok(text) => {
                    &&& !self@.is_missing_required_data()
                    &&& canvas_fits(self@.image_size.width, self@.image_size.height)
                    &&& all_usable(
                        layer_stack(content(*background), contents(layers@)),
                        self@.image_size.width,
                        self@.image_size.height,
                    )
                    &&& assembles(
                        layer_stack(content(*background), contents(layers@)),
                        self@.image_size,
                        text@,
                    )
                    &&& text@.len() > 0
                },
                Err(error) => if self@.is_missing_required_data() {
                    error == Error::RoboHashMissingRequiredData
                } else {
                    ||| build_fails_with(
                        layer_stack(content(*background), contents(layers@)),
                        self@.image_size.width,
                        self@.image_size.height,
                        error,
                    )
                    ||| error is ImageProcessingError && assembling_fails_to_encode(
                        layer_stack(content(*background), contents(layers@)),
                        self@.image_size,
                    )
                },
            },
    {
        if self.is_missing_required_data() {
            return Err(Error::RoboHashMissingRequiredData);
        }
        let image = match build_robo_hash_image(
            layers,
            background,
            self.image_size.width,
            self.image_size.height,
        ) {
            Ok(image) => image,
            Err(error) => {
                return Err(error);
            },
        };
        to_base_64(&image)
    }
}

/// Assembling is determined by what it is given: from files that have the
/// size of the image already, two runs give the same text. Files that are
/// resampled are left out, for their pixels depend on the floating-point
/// arithmetic of the machine.
pub proof fn assembling_is_determined(
    stack: Seq<Seq<u8>>,
    size: ImageSize,
    first: Seq<char>,
    second: Seq<char>,
)
    requires
        all_of_size(stack, size.width, size.height),
        assembles(stack, size, first),
        assembles(stack, size, second),
    ensures
        first == second,
{
    let a = choose|image: Raster| #[trigger]
        composes(stack, size.width, size.height, image) && encodes(image, first);
    let b = choose|image: Raster| #[trigger]
        composes(stack, size.width, size.height, image) && encodes(image, second);
    composing_is_determined(stack, size.width, size.height, a, b);
}

/// The index array of a text whose hash has the 64 bytes of SHA-512 has
/// twenty-two indices, none negative: the numbers of the eleven chunks of
/// eleven digits of its digest, and the same eleven once more.
pub proof fn the_index_array_of_a_text(text: Seq<char>)
    requires
        sha512_of(text).len() == 64,
    ensures
        index_array(text).len() == 2 * HASH_CHUNKS,
        is_index_array(index_array(text)),
        forall|i: int|
            0 <= i < HASH_CHUNKS ==> {
                &&& #[trigger] index_array(text)[i] == hex_number(
                    chunk_of(hex_of(sha512_of(text)), HASH_CHUNKS as int, i),
                )
                &&& index_array(text)[i + HASH_CHUNKS] == index_array(text)[i]
            },
{
    let digest = hex_of(sha512_of(text));
    hex_of_is_hex(sha512_of(text));
    index_array_of_a_digest(digest);
    let chunks = indices_of(digest, HASH_CHUNKS as int);
    assert forall|i: int| 0 <= i < index_array(text).len() implies #[trigger] index_array(text)[i]
        >= 0 by {
        if i < HASH_CHUNKS {
            assert(index_array(text)[i] == chunks[i]);
        } else {
            assert(index_array(text)[i] == chunks[i - HASH_CHUNKS]);
        }
    }
    assert forall|i: int| 0 <= i < HASH_CHUNKS implies {
        &&& #[trigger] index_array(text)[i] == hex_number(chunk_of(digest, HASH_CHUNKS as int, i))
        &&& index_array(text)[i + HASH_CHUNKS] == index_array(text)[i]
    } by {
        assert(chunk_of(digest, 11, i) == digest.subrange(11 * i, 11 * i + 11));
        assert(index_array(text)[i] == chunks[i]);
        assert(index_array(text)[i + HASH_CHUNKS] == chunks[i]);
    }
}

/// An avatar of a set that has colours always gets a colour: its path
/// ends in the segment of a colour, whatever colour was asked for, and
/// never stands for "any".
pub proof fn a_set_with_colours_gets_a_colour(request: Request)
    requires
        chosen_set(index_array(request.text), request.set).colour_bearing(),
    ensures
        ({
            let indices = index_array(request.text);
            let set = chosen_set(indices, request.set);
            let colour = chosen_colour(indices, request.colour, set);
            &&& colour != Colour::Any
            &&& colour.segment() is Some
            &&& built(request).set == entry_path(set.segment(), colour.segment().unwrap())
        }),
{
    Colour::candidates_are_the_concrete_colours();
}

} // verus!
