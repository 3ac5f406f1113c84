//! Loads every ground (graphic set) together with its decoded imagery:
//! the metadata files are parsed into a table keyed by their embedded
//! number, and each sprite container with a matching number is
//! decompressed and its terrain sprites and object animations decoded.

use vstd::prelude::*;
use std::collections::HashMap;
use crate::decompressor::{
    decompress, decompress_spec, decode_sections, frame_sections, lemma_decode_sections_len,
    DecompressError,
};
use crate::file_finder::{File, FileModel};
use crate::ground::{ground_ok, le16, spec_as_rgba, Ground};
use crate::image::{frame_4bpp_mask_ok, mask_frame_fits, Animation, Image};

verus! {

broadcast use vstd::std_specs::hash::group_hash_axioms;

/// Why loading the grounds failed.
#[derive(Clone, Copy, Debug, PartialEq, Eq, Structural)]
pub enum LoadError {
    /// A sprite container did not decompress.
    Decompress(DecompressError),
    /// A metadata file does not have the fixed 1056-byte ground layout.
    BadGroundFile,
    /// A sprite container holds fewer than the two sections the imagery
    /// lives in.
    MissingSections,
    /// A sprite or animation recorded in the metadata reaches past its
    /// decompressed section.
    ImageOutOfRange,
}

/// A ground and the imagery decoded from its companion sprite container.
pub struct GroundWithImages {
    pub ground: Ground,
    pub terrain: HashMap<usize, Image>,
    pub objects: HashMap<usize, Animation>,
}

/// The raw material one ground was decoded from: its metadata bytes and
/// the decompressed sections of its sprite container.
pub struct GroundSource {
    pub ground_bytes: Seq<u8>,
    pub sections: Seq<Seq<u8>>,
}

/// The views of a list of files.
pub open spec fn files_view(fs: Seq<File>) -> Seq<FileModel> {
    fs.map_values(|f: File| f@)
}

/// The metadata table built from the ground files in order, keyed by each
/// file's embedded number with later files winning, or the first layout
/// error.
pub open spec fn metadata_outcome(gs: Seq<FileModel>) -> Result<Map<u32, Seq<u8>>, LoadError>
    decreases gs.len(),
{
    if gs.len() == 0 {
        Ok(Map::empty())
    } else {
        match metadata_outcome(gs.drop_last()) {
            Err(e) => Err(e),
            Ok(m) => {
                if gs.last().data.len() != 1056 {
                    Err(LoadError::BadGroundFile)
                } else {
                    Ok(m.insert(gs.last().number, gs.last().data))
                }
            },
        }
    }
}

/// Terrain record `i` of the metadata `d` either has no pixels or lies
/// wholly inside the first sprite section, of `len0` bytes.
pub open spec fn terr_fits(d: Seq<u8>, i: int, len0: int) -> bool {
    let base = 448 + 8 * i;
    let w = d[base] as int;
    let h = d[base + 1] as int;
    (w > 0 && h > 0) ==> (8 * le16(d, base + 2) + 4 * (w * h) <= 8 * len0 && 8 * le16(d, base + 4)
        + w * h <= 8 * len0)
}

/// Frame `f` of object record `i` lies wholly inside the second sprite
/// section, of `len1` bytes.
pub open spec fn obj_frame_fits(d: Seq<u8>, i: int, f: int, len1: int) -> bool {
    let base = 28 * i;
    let w = d[base + 4] as int;
    let h = d[base + 5] as int;
    let stride = le16(d, base + 6) as int;
    let moff = le16(d, base + 8) as int;
    let iloc = le16(d, base + 21) as int;
    &&& 8 * (f * stride + iloc) + 4 * (w * h) <= 8 * len1
    &&& 8 * (f * stride + iloc + moff) + w * h <= 8 * len1
}

/// Object record `i` either draws nothing or every frame of it fits.
pub open spec fn obj_fits(d: Seq<u8>, i: int, len1: int) -> bool {
    let base = 28 * i;
    let w = d[base + 4] as int;
    let h = d[base + 5] as int;
    let fc = d[base + 3] as int;
    (w > 0 && h > 0 && fc > 0) ==> forall|f: int|
        0 <= f < fc ==> #[trigger] obj_frame_fits(d, i, f, len1)
}

/// Every sprite and animation the metadata records fits its section.
pub open spec fn imagery_fits(d: Seq<u8>, len0: int, len1: int) -> bool {
    &&& forall|i: int| 0 <= i < 64 ==> #[trigger] terr_fits(d, i, len0)
    &&& forall|i: int| 0 <= i < 16 ==> #[trigger] obj_fits(d, i, len1)
}

/// The sprite containers processed in order against the metadata table:
/// a file whose number has no (remaining) metadata is skipped; a matched
/// file is decompressed and checked, claims its number, and its number's
/// metadata is spent. The first failure aborts the whole load.
pub open spec fn vgagr_outcome(files: Seq<FileModel>, meta: Map<u32, Seq<u8>>) -> Result<
    Map<u32, GroundSource>,
    LoadError,
>
    decreases files.len(),
{
    if files.len() == 0 {
        Ok(Map::empty())
    } else {
        let f = files[0];
        if !meta.contains_key(f.number) {
            vgagr_outcome(files.drop_first(), meta)
        } else {
            let g = meta[f.number];
            match decompress_spec(f.data) {
                Err(e) => Err(LoadError::Decompress(e)),
                Ok(sections) => {
                    if sections.len() < 2 {
                        Err(LoadError::MissingSections)
                    } else if !imagery_fits(g, sections[0].len() as int, sections[1].len() as int) {
                        Err(LoadError::ImageOutOfRange)
                    } else {
                        match vgagr_outcome(files.drop_first(), meta.remove(f.number)) {
                            Err(e) => Err(e),
                            Ok(rest) => Ok(
                                rest.insert(f.number, GroundSource { ground_bytes: g, sections }),
                            ),
                        }
                    }
                },
            }
        }
    }
}

/// What `load` computes from the two file lists.
pub open spec fn load_spec(gs: Seq<FileModel>, vs: Seq<FileModel>) -> Result<
    Map<u32, GroundSource>,
    LoadError,
> {
    match metadata_outcome(gs) {
        Err(e) => Err(e),
        Ok(meta) => vgagr_outcome(vs, meta),
    }
}

/// The terrain sprites decoded for one ground: exactly the records with
/// pixels, each against its recorded location in the first section.
pub open spec fn terrain_images_ok(
    m: Map<usize, Image>,
    g: Ground,
    s0: Seq<u8>,
    pal: Seq<u32>,
) -> bool {
    &&& forall|i: usize|
        #![auto]
        m.contains_key(i) <==> (i < 64 && g.terrain_info@[i as int].width > 0
            && g.terrain_info@[i as int].height > 0)
    &&& forall|i: usize|
        #[trigger] m.contains_key(i) && i < 64 ==> {
            let info = g.terrain_info@[i as int];
            let img = m[i];
            &&& img.width == info.width
            &&& img.height == info.height
            &&& frame_4bpp_mask_ok(
                img.bitmap@,
                s0,
                info.width as int,
                info.height as int,
                info.image_loc as int,
                info.mask_loc as int,
                pal,
            )
        }
}

/// One object animation decoded against its metadata record.
pub open spec fn object_anim_ok(
    a: Animation,
    o: crate::ground::ObjectInfo,
    s1: Seq<u8>,
    pal: Seq<u32>,
) -> bool {
    &&& a.width == o.width
    &&& a.height == o.height
    &&& a.frames@.len() == o.frame_count
    &&& forall|f: int|
        0 <= f < o.frame_count ==> frame_4bpp_mask_ok(
            (#[trigger] a.frames@[f])@,
            s1,
            o.width as int,
            o.height as int,
            f * o.animation_frame_data_size + o.animation_frames_base_loc,
            f * o.animation_frame_data_size + o.animation_frames_base_loc
                + o.mask_offset_from_image,
            pal,
        )
}

/// The object animations decoded for one ground: exactly the records with
/// pixels and at least one frame.
pub open spec fn object_images_ok(
    m: Map<usize, Animation>,
    g: Ground,
    s1: Seq<u8>,
    pal: Seq<u32>,
) -> bool {
    &&& forall|i: usize|
        #![auto]
        m.contains_key(i) <==> (i < 16 && g.object_info@[i as int].width > 0
            && g.object_info@[i as int].height > 0 && g.object_info@[i as int].frame_count > 0)
    &&& forall|i: usize|
        #[trigger] m.contains_key(i) && i < 16 ==> object_anim_ok(
            m[i],
            g.object_info@[i as int],
            s1,
            pal,
        )
}

/// One loaded ground against its raw material.
pub open spec fn ground_with_images_ok(g: GroundWithImages, src: GroundSource) -> bool {
    &&& ground_ok(g.ground, src.ground_bytes)
    &&& g.ground.wf()
    &&& src.sections.len() >= 2
    &&& terrain_images_ok(
        g.terrain@,
        g.ground,
        src.sections[0],
        spec_as_rgba(g.ground.palettes),
    )
    &&& object_images_ok(g.objects@, g.ground, src.sections[1], spec_as_rgba(g.ground.palettes))
}

/// The metadata table fails in only one way.
proof fn lemma_metadata_err_form(gs: Seq<FileModel>)
    ensures
        metadata_outcome(gs) is Err ==> metadata_outcome(gs) == Err::<
            Map<u32, Seq<u8>>,
            LoadError,
        >(LoadError::BadGroundFile),
    decreases gs.len(),
{
    if gs.len() > 0 {
        lemma_metadata_err_form(gs.drop_last());
    }
}

/// A failed metadata file fails the whole table, whichever file it is.
proof fn lemma_metadata_err(gs: Seq<FileModel>, i: int)
    requires
        0 <= i < gs.len(),
        gs[i].data.len() != 1056,
    ensures
        metadata_outcome(gs) == Err::<Map<u32, Seq<u8>>, LoadError>(LoadError::BadGroundFile),
    decreases gs.len(),
{
    if i == gs.len() - 1 {
        lemma_metadata_err_form(gs.drop_last());
    } else {
        lemma_metadata_err(gs.drop_last(), i);
    }
}

/// A successful walk of the sprite containers claims only numbers the
/// metadata table still holds.
proof fn lemma_vgagr_dom(files: Seq<FileModel>, meta: Map<u32, Seq<u8>>)
    ensures
        vgagr_outcome(files, meta) matches Ok(m) ==> m.dom() <= meta.dom(),
    decreases files.len(),
{
    if files.len() > 0 {
        let f = files[0];
        if !meta.contains_key(f.number) {
            lemma_vgagr_dom(files.drop_first(), meta);
        } else {
            lemma_vgagr_dom(files.drop_first(), meta.remove(f.number));
        }
    }
}

/// Checks that every sprite and animation the metadata records fits the
/// two decompressed sections.
fn check_imagery(ground: &Ground, Ghost(d): Ghost<Seq<u8>>, len0: usize, len1: usize) -> (ok: bool)
    requires
        ground_ok(*ground, d),
        ground.wf(),
        len0 <= 65798,
        len1 <= 65798,
    ensures
        ok == imagery_fits(d, len0 as int, len1 as int),
{
    let mut i: usize = 0;
    while i < 64
        invariant
            i <= 64,
            ground_ok(*ground, d),
            ground.wf(),
            len0 <= 65798,
            forall|k: int| 0 <= k < i ==> #[trigger] terr_fits(d, k, len0 as int),
        decreases 64 - i,
    {
        let info = ground.terrain_info[i];
        proof {
            assert(ground.terrain_info@[i as int].width <= 255);
            assert(ground.terrain_info@[i as int].height <= 255);
            assert((info.width as u64) * (info.height as u64) <= 65025) by (nonlinear_arith)
                requires
                    info.width <= 255,
                    info.height <= 255,
            ;
        }
        if info.width > 0 && info.height > 0 {
            let pixels: u64 = (info.width as u64) * (info.height as u64);
            let e_img: u64 = 8 * (info.image_loc as u64) + 4 * pixels;
            let e_mask: u64 = 8 * (info.mask_loc as u64) + pixels;
            if e_img > 8 * (len0 as u64) || e_mask > 8 * (len0 as u64) {
                proof {
                    assert(!terr_fits(d, i as int, len0 as int));
                }
                return false;
            }
        }
        proof {
            assert(terr_fits(d, i as int, len0 as int));
        }
        i = i + 1;
    }
    let mut i: usize = 0;
    while i < 16
        invariant
            i <= 16,
            ground_ok(*ground, d),
            ground.wf(),
            len0 <= 65798,
            len1 <= 65798,
            forall|k: int| 0 <= k < 64 ==> #[trigger] terr_fits(d, k, len0 as int),
            forall|k: int| 0 <= k < i ==> #[trigger] obj_fits(d, k, len1 as int),
        decreases 16 - i,
    {
        let o = &ground.object_info[i];
        proof {
            assert(ground.object_info@[i as int].width <= 255);
            assert(ground.object_info@[i as int].height <= 255);
            assert((o.width as u64) * (o.height as u64) <= 65025) by (nonlinear_arith)
                requires
                    o.width <= 255,
                    o.height <= 255,
            ;
            if o.frame_count > 0 {
                assert((((o.frame_count - 1) as u8) as u64) * (
                o.animation_frame_data_size as u64) <= 16645890) by (nonlinear_arith)
                    requires
                        0 < o.frame_count <= 255,
                        o.animation_frame_data_size <= 65535,
                ;
            }
        }
        if o.width > 0 && o.height > 0 && o.frame_count > 0 {
            let pixels: u64 = (o.width as u64) * (o.height as u64);
            let last: u64 = ((o.frame_count - 1) as u64) * (o.animation_frame_data_size as u64);
            let e_img: u64 = 8 * (last + (o.animation_frames_base_loc as u64)) + 4 * pixels;
            let e_mask: u64 = 8 * (last + (o.animation_frames_base_loc as u64) + (
            o.mask_offset_from_image as u64)) + pixels;
            if e_img > 8 * (len1 as u64) || e_mask > 8 * (len1 as u64) {
                proof {
                    assert(!obj_frame_fits(d, i as int, o.frame_count - 1, len1 as int));
                    assert(!obj_fits(d, i as int, len1 as int));
                }
                return false;
            }
            proof {
                let fc = o.frame_count as int;
                let stride = o.animation_frame_data_size as int;
                assert forall|f: int| 0 <= f < fc implies #[trigger] obj_frame_fits(
                    d,
                    i as int,
                    f,
                    len1 as int,
                ) by {
                    vstd::arithmetic::mul::lemma_mul_inequality(f, fc - 1, stride);
                }
            }
        }
        proof {
            assert(obj_fits(d, i as int, len1 as int));
        }
        i = i + 1;
    }
    true
}

/// Loads every ground whose metadata and sprite container are both
/// present: the first list supplies the 1056-byte metadata files, the
/// second the compressed sprite containers, matched by the numbers in
/// their names. The result holds one entry per matched number.
#[verifier::rlimit(100)]
pub fn load(ground_files: &Vec<File>, vgagr_files: &Vec<File>) -> (r: Result<
    HashMap<u32, GroundWithImages>,
    LoadError,
>)
    ensures
        ({
            let spec_r = load_spec(files_view(ground_files@), files_view(vgagr_files@));
            match r {
                Ok(m) => match spec_r {
                    Ok(srcs) => m@.dom() == srcs.dom() && forall|n: u32|
                        #[trigger] m@.contains_key(n) ==> ground_with_images_ok(m@[n], srcs[n]),
                    Err(_) => false,
                },
                Err(e) => spec_r == Err::<Map<u32, GroundSource>, LoadError>(e),
            }
        }),
{
    let ghost gmodels = files_view(ground_files@);
    let ghost vmodels = files_view(vgagr_files@);
    let mut meta: HashMap<u32, Vec<u8>> = HashMap::new();
    let ghost mut meta_s: Map<u32, Seq<u8>> = Map::empty();
    let mut i: usize = 0;
    proof {
        assert(gmodels.take(0) =~= Seq::<FileModel>::empty());
        assert(meta@.dom() =~= meta_s.dom());
    }
    while i < ground_files.len()
        invariant
            i <= ground_files@.len(),
            gmodels == files_view(ground_files@),
            metadata_outcome(gmodels.take(i as int)) == Ok::<Map<u32, Seq<u8>>, LoadError>(meta_s),
            meta@.dom() == meta_s.dom(),
            forall|k: u32| #[trigger] meta_s.contains_key(k) ==> meta@[k]@ == meta_s[k],
            forall|k: u32| #[trigger] meta_s.contains_key(k) ==> meta_s[k].len() == 1056,
        decreases ground_files@.len() - i,
    {
        let f = &ground_files[i];
        proof {
            assert(gmodels[i as int] == ground_files@[i as int]@);
            assert(gmodels.take(i + 1).drop_last() =~= gmodels.take(i as int));
            assert(gmodels.take(i + 1).last() == gmodels[i as int]);
        }
        if f.data.len() != 1056 {
            proof {
                assert(gmodels[i as int].data.len() != 1056);
                lemma_metadata_err(gmodels, i as int);
            }
            return Err(LoadError::BadGroundFile);
        }
        let bytes = vstd::slice::slice_to_vec(f.data.as_slice());
        meta.insert(f.number, bytes);
        proof {
            meta_s = meta_s.insert(f.number, f.data@);
            assert(meta@.dom() =~= meta_s.dom());
        }
        i = i + 1;
    }
    proof {
        assert(gmodels.take(gmodels.len() as int) =~= gmodels);
    }
    let ghost meta0 = meta_s;
    let mut result: HashMap<u32, GroundWithImages> = HashMap::new();
    let ghost mut acc: Map<u32, GroundSource> = Map::empty();
    let mut j: usize = 0;
    proof {
        assert(vmodels.skip(0) =~= vmodels);
        assert(result@.dom() =~= acc.dom());
        match vgagr_outcome(vmodels, meta0) {
            Ok(rest) => {
                assert(acc.union_prefer_right(rest) =~= rest);
            },
            Err(_) => {},
        }
    }
    while j < vgagr_files.len()
        invariant
            j <= vgagr_files@.len(),
            vmodels == files_view(vgagr_files@),
            gmodels == files_view(ground_files@),
            metadata_outcome(gmodels) == Ok::<Map<u32, Seq<u8>>, LoadError>(meta0),
            meta@.dom() == meta_s.dom(),
            forall|k: u32| #[trigger] meta_s.contains_key(k) ==> meta@[k]@ == meta_s[k],
            forall|k: u32| #[trigger] meta_s.contains_key(k) ==> meta_s[k].len() == 1056,
            match vgagr_outcome(vmodels.skip(j as int), meta_s) {
                Ok(rest) => vgagr_outcome(vmodels, meta0) == Ok::<
                    Map<u32, GroundSource>,
                    LoadError,
                >(acc.union_prefer_right(rest)) && acc.dom().disjoint(rest.dom()),
                Err(e) => vgagr_outcome(vmodels, meta0) == Err::<
                    Map<u32, GroundSource>,
                    LoadError,
                >(e),
            },
            result@.dom() == acc.dom(),
            forall|n: u32| #[trigger] result@.contains_key(n) ==> ground_with_images_ok(
                result@[n],
                acc[n],
            ),
        decreases vgagr_files@.len() - j,
    {
        let f = &vgagr_files[j];
        proof {
            assert(vmodels[j as int] == vgagr_files@[j as int]@);
            assert(vmodels.skip(j as int)[0] == vmodels[j as int]);
            assert(vmodels.skip(j as int).drop_first() =~= vmodels.skip(j + 1));
        }
        let gbytes = match meta.remove(&f.number) {
            Some(b) => b,
            None => {
                // number without metadata: container skipped
                proof {
                    assert(!meta_s.contains_key(f.number));
                    assert(meta@.dom() =~= meta_s.dom());
                }
                j = j + 1;
                continue ;
            },
        };
        // gbytes is the metadata for this number
        proof {
            assert(meta_s.contains_key(f.number));
            assert(gbytes@ == meta_s[f.number]);
            assert(gbytes@.len() == 1056);
        }
        let ghost meta_old = meta_s;
        let sections = match decompress(f.data.as_slice()) {
            Ok(s) => s,
            Err(e) => {
                return Err(LoadError::Decompress(e));
            },
        };
        let ghost secs = sections.deep_view();
        proof {
            assert(decompress_spec(vmodels[j as int].data) == Ok::<
                Seq<Seq<u8>>,
                DecompressError,
            >(secs));
        }
        if sections.len() < 2 {
            return Err(LoadError::MissingSections);
        }
        proof {
            assert(secs.len() == sections@.len());
            assert(secs[0] == sections@[0]@);
            assert(secs[1] == sections@[1]@);
            match frame_sections(vmodels[j as int].data, 0) {
                Ok(ms) => {
                    lemma_decode_sections_len(ms);
                    assert(decode_sections(ms) == Ok::<Seq<Seq<u8>>, DecompressError>(secs));
                    assert(secs[0].len() <= 65798);
                    assert(secs[1].len() <= 65798);
                },
                Err(_) => {
                    assert(false);
                },
            }
        }
        let ground = Ground::parse(gbytes.as_slice());
        if !check_imagery(&ground, Ghost(gbytes@), sections[0].len(), sections[1].len()) {
            return Err(LoadError::ImageOutOfRange);
        }
        let pal = ground.palettes.as_rgba();
        let ghost s0 = secs[0];
        let ghost s1 = secs[1];
        let s0_slice = sections[0].as_slice();
        let s1_slice = sections[1].as_slice();
        let mut terrain: HashMap<usize, Image> = HashMap::new();
        let mut ti: usize = 0;
        proof {
            assert(terrain@.dom() =~= Set::<usize>::empty());
        }
        while ti < 64
            invariant
                ti <= 64,
                ground_ok(ground, gbytes@),
                ground.wf(),
                imagery_fits(gbytes@, s0.len() as int, s1.len() as int),
                s0_slice@ == s0,
                s0.len() <= 65798,
                pal@ == spec_as_rgba(ground.palettes),
                forall|k: usize|
                    #![auto]
                    terrain@.contains_key(k) <==> (k < ti && ground.terrain_info@[k as int].width
                        > 0 && ground.terrain_info@[k as int].height > 0),
                forall|k: usize|
                    #[trigger] terrain@.contains_key(k) && k < 64 ==> {
                        let info = ground.terrain_info@[k as int];
                        let img = terrain@[k];
                        &&& img.width == info.width
                        &&& img.height == info.height
                        &&& frame_4bpp_mask_ok(
                            img.bitmap@,
                            s0,
                            info.width as int,
                            info.height as int,
                            info.image_loc as int,
                            info.mask_loc as int,
                            pal@,
                        )
                    },
            decreases 64 - ti,
        {
            let info = ground.terrain_info[ti];
            if info.width > 0 && info.height > 0 {
                proof {
                    assert(terr_fits(gbytes@, ti as int, s0.len() as int));
                }
                let img = Image::parse_4bpp_plus_mask(
                    s0_slice,
                    info.width,
                    info.height,
                    info.image_loc as usize,
                    info.mask_loc as usize,
                    &pal,
                );
                terrain.insert(ti, img);
            }
            ti = ti + 1;
        }
        let mut objects: HashMap<usize, Animation> = HashMap::new();
        let mut oi: usize = 0;
        proof {
            assert(objects@.dom() =~= Set::<usize>::empty());
        }
        while oi < 16
            invariant
                oi <= 16,
                ground_ok(ground, gbytes@),
                ground.wf(),
                imagery_fits(gbytes@, s0.len() as int, s1.len() as int),
                s1_slice@ == s1,
                s1.len() <= 65798,
                pal@ == spec_as_rgba(ground.palettes),
                forall|k: usize|
                    #![auto]
                    objects@.contains_key(k) <==> (k < oi && ground.object_info@[k as int].width
                        > 0 && ground.object_info@[k as int].height > 0
                        && ground.object_info@[k as int].frame_count > 0),
                forall|k: usize|
                    #[trigger] objects@.contains_key(k) && k < 16 ==> object_anim_ok(
                        objects@[k],
                        ground.object_info@[k as int],
                        s1,
                        pal@,
                    ),
            decreases 16 - oi,
        {
            let o = &ground.object_info[oi];
            if o.width > 0 && o.height > 0 && o.frame_count > 0 {
                proof {
                    assert(obj_fits(gbytes@, oi as int, s1.len() as int));
                    let fc = o.frame_count as int;
                    let stride = o.animation_frame_data_size as int;
                    let iloc = o.animation_frames_base_loc as int;
                    let moff = o.mask_offset_from_image as int;
                    assert forall|f: int| 0 <= f < fc implies #[trigger] mask_frame_fits(
                        s1,
                        o.width as int,
                        o.height as int,
                        iloc,
                        iloc + moff,
                        stride,
                        f,
                    ) by {
                        assert(obj_frame_fits(gbytes@, oi as int, f, s1.len() as int));
                    }
                }
                let anim = Animation::parse_4bpp_plus_mask(
                    s1_slice,
                    o.width,
                    o.height,
                    o.frame_count as usize,
                    o.animation_frames_base_loc as usize,
                    (o.animation_frames_base_loc as usize) + (o.mask_offset_from_image as usize),
                    &pal,
                    o.animation_frame_data_size as usize,
                );
                objects.insert(oi, anim);
            }
            oi = oi + 1;
        }
        let gwi = GroundWithImages { ground, terrain, objects };
        let number = f.number;
        let ghost src = GroundSource { ground_bytes: gbytes@, sections: secs };
        proof {
            assert(ground_with_images_ok(gwi, src));
        }
        result.insert(number, gwi);
        proof {
            let n = vmodels[j as int].number;
            let rest_meta = meta_old.remove(n);
            lemma_vgagr_dom(vmodels.skip(j + 1), rest_meta);
            match vgagr_outcome(vmodels.skip(j + 1), rest_meta) {
                Ok(rest1) => {
                    assert(!rest1.contains_key(n));
                    assert(vgagr_outcome(vmodels.skip(j as int), meta_old) == Ok::<
                        Map<u32, GroundSource>,
                        LoadError,
                    >(rest1.insert(n, src)));
                    assert(acc.union_prefer_right(rest1.insert(n, src)) =~= acc.insert(
                        n,
                        src,
                    ).union_prefer_right(rest1));
                    assert(acc.insert(n, src).dom().disjoint(rest1.dom()));
                },
                Err(_) => {},
            }
            acc = acc.insert(n, src);
            meta_s = meta_old.remove(n);
            assert(result@.dom() =~= acc.dom());
        }
        j = j + 1;
    }
    proof {
        assert(vmodels.skip(vmodels.len() as int) =~= Seq::<FileModel>::empty());
        match vgagr_outcome(vmodels, meta0) {
            Ok(all) => {
                assert(acc.union_prefer_right(Map::<u32, GroundSource>::empty()) =~= acc);
            },
            Err(_) => {},
        }
    }
    Ok(result)
}

} // verus!
