use vstd::prelude::*;

use std::collections::HashMap;

use crate::picture::{crop_grid, mirror_h, mirror_v, squeeze_grid, Grid, Picture};

verus! {

broadcast use vstd::std_specs::hash::group_hash_axioms;

/// A rectangle of pixels: top left corner at column `x`, row `y`, `w` wide and
/// `h` high.
#[derive(Debug, Clone, Copy, PartialEq, Eq, Structural)]
pub struct Rect {
    pub x: u32,
    pub y: u32,
    pub w: u32,
    pub h: u32,
}

/// How one clip is cut from the source image.
#[derive(Debug, Clone, Copy, PartialEq, Eq, Structural)]
pub struct ClipDesc {
    pub rect: Rect,
    pub is_flipped: bool,
    pub squeeze: bool,
}

/// One prepared frame: the image, and its width over height as a pair
/// `(width, height)`.
#[derive(Debug)]
pub struct Clip {
    pub image: Picture,
    pub width_over_height: (u32, u32),
}

/// The rectangle lies inside a picture of the given size.
pub open spec fn rect_inside(rect: Rect, width: nat, height: nat) -> bool {
    rect.x + rect.w <= width && rect.y + rect.h <= height
}

/// The source cut to the rectangle and mirrored left to right where asked.
pub open spec fn cut_shape(src: Grid, rect: Rect, is_flipped: bool) -> (nat, Grid) {
    let cut = crop_grid(src, rect.x as int, rect.y as int, rect.w as nat, rect.h as nat);
    if is_flipped {
        (rect.w as nat, mirror_h(rect.w as nat, cut))
    } else {
        (rect.w as nat, cut)
    }
}

/// The cut, with its margin trimmed where asked, before the final vertical
/// mirror.
pub open spec fn trimmed_shape(src: Grid, rect: Rect, is_flipped: bool, squeeze: bool) -> (nat, Grid) {
    if squeeze {
        squeeze_grid(cut_shape(src, rect, is_flipped))
    } else {
        cut_shape(src, rect, is_flipped)
    }
}

/// The image of a clip: the trimmed cut mirrored top to bottom.
pub open spec fn clip_shape(src: Grid, rect: Rect, is_flipped: bool, squeeze: bool) -> (nat, Grid) {
    let t = trimmed_shape(src, rect, is_flipped, squeeze);
    (t.0, mirror_v(t.1))
}

impl Clip {
    /// The image is well formed and the ratio is its width over its height.
    pub open spec fn wf(&self) -> bool {
        &&& self.image.wf()
        &&& self.width_over_height == (self.image.width, self.image.height)
    }

    /// The clip cut from `source` as `desc` says.
    pub open spec fn made_from(&self, source: Grid, desc: ClipDesc) -> bool {
        &&& self.wf()
        &&& self.image.shape() == clip_shape(source, desc.rect, desc.is_flipped, desc.squeeze)
    }

    /// Cuts `rect` out of `source`, mirrors it left to right where `is_flipped`,
    /// trims its transparent margin where `squeeze`, then mirrors it top to
    /// bottom. `None` where the rectangle leaves the source.
    pub fn new(source: &Picture, rect: Rect, is_flipped: bool, squeeze: bool) -> (r: Option<Clip>)
        requires
            source.wf(),
        ensures
            r.is_some() <==> rect_inside(rect, source.width as nat, source.height as nat),
            r matches Some(c) ==> {
                &&& c.wf()
                &&& c.image.shape() == clip_shape(source.grid(), rect, is_flipped, squeeze)
                &&& c.width_over_height.0 == trimmed_shape(source.grid(), rect, is_flipped, squeeze).0
                &&& c.width_over_height.1 == trimmed_shape(source.grid(), rect, is_flipped, squeeze).1.len()
            },
    {
        let cropped = source.crop(rect.x, rect.y, rect.w, rect.h);
        let mut cropped = match cropped {
            Some(p) => p,
            None => {
                return None;
            },
        };
        if is_flipped {
            cropped = cropped.fliph();
        }
        if squeeze {
            cropped.squeeze();
        }
        let image = cropped.flipv();
        let width_over_height = (image.width, image.height);
        Some(Clip { image, width_over_height })
    }
}

/// Every clip description of every entry has its rectangle inside a picture of
/// the given size.
pub open spec fn all_inside(entries: Seq<(u32, Vec<ClipDesc>)>, width: nat, height: nat) -> bool {
    forall|e: int, i: int|
        0 <= e < entries.len() && 0 <= i < entries[e].1@.len() ==> rect_inside(
            (#[trigger] entries[e].1@[i]).rect,
            width,
            height,
        )
}

/// The map from state key to clip descriptions that a list of entries gives,
/// a later entry for a key replacing an earlier one.
pub open spec fn entries_map(entries: Seq<(u32, Vec<ClipDesc>)>) -> Map<u32, Seq<ClipDesc>>
    decreases entries.len(),
{
    if entries.len() == 0 {
        Map::empty()
    } else {
        entries_map(entries.drop_last()).insert(entries.last().0, entries.last().1@)
    }
}

/// Each clip was cut from `source` as the matching description says.
pub open spec fn clips_made_from(clips: Seq<Clip>, source: Grid, descs: Seq<ClipDesc>) -> bool {
    &&& clips.len() == descs.len()
    &&& forall|i: int| 0 <= i < clips.len() ==> (#[trigger] clips[i]).made_from(source, descs[i])
}

/// The clips of each animation state, by state key.
pub struct SpriteSheet {
    pub clips: HashMap<u32, Vec<Clip>>,
}

impl SpriteSheet {
    /// Every clip is well formed.
    pub open spec fn wf(&self) -> bool {
        forall|k: u32, i: int|
            self.clips@.contains_key(k) && 0 <= i < self.clips@[k]@.len() ==> (
            #[trigger] self.clips@[k]@[i]).wf()
    }

    /// The sheet holds, for each key of the entries, the clips its descriptions
    /// give when cut from `source`, and no other key.
    pub open spec fn made_from(&self, source: Grid, entries: Seq<(u32, Vec<ClipDesc>)>) -> bool {
        &&& self.clips@.dom() == entries_map(entries).dom()
        &&& forall|k: u32|
            #[trigger] self.clips@.contains_key(k) ==> clips_made_from(
                self.clips@[k]@,
                source,
                entries_map(entries)[k],
            )
    }

    /// The state has at least `n` clips.
    pub open spec fn has_frames(&self, key: u32, n: nat) -> bool {
        self.clips@.contains_key(key) && self.clips@[key]@.len() >= n
    }

    /// A sheet holding the given clips.
    pub fn new(clips: HashMap<u32, Vec<Clip>>) -> (r: Self)
        ensures
            r.clips@ == clips@,
    {
        SpriteSheet { clips }
    }

    /// Builds every clip of the description against the one decoded source.
    /// `None` where a rectangle leaves the source.
    pub fn from_desc(source: &Picture, clip_map: &Vec<(u32, Vec<ClipDesc>)>) -> (r: Option<Self>)
        requires
            source.wf(),
        ensures
            r.is_some() <==> all_inside(clip_map@, source.width as nat, source.height as nat),
            r matches Some(s) ==> s.wf() && s.made_from(source.grid(), clip_map@),
    {
        let mut clips: HashMap<u32, Vec<Clip>> = HashMap::new();
        let mut e: usize = 0;
        while e < clip_map.len()
            invariant
                source.wf(),
                e <= clip_map@.len(),
                all_inside(clip_map@.subrange(0, e as int), source.width as nat, source.height as nat),
                clips@.dom() == entries_map(clip_map@.subrange(0, e as int)).dom(),
                forall|k: u32|
                    #[trigger] clips@.contains_key(k) ==> clips_made_from(
                        clips@[k]@,
                        source.grid(),
                        entries_map(clip_map@.subrange(0, e as int))[k],
                    ),
            decreases clip_map@.len() - e,
        {
            let key = clip_map[e].0;
            let descs = &clip_map[e].1;
            let mut made: Vec<Clip> = Vec::new();
            let mut i: usize = 0;
            while i < descs.len()
                invariant
                    source.wf(),
                    e < clip_map@.len(),
                    *descs == clip_map@[e as int].1,
                    i <= descs@.len(),
                    forall|m: int| 0 <= m < i ==> rect_inside(#[trigger] descs@[m].rect, source.width as nat, source.height as nat),
                    clips_made_from(made@, source.grid(), descs@.subrange(0, i as int)),
                decreases descs@.len() - i,
            {
                let d = descs[i];
                match Clip::new(source, d.rect, d.is_flipped, d.squeeze) {
                    Some(c) => {
                        made.push(c);
                    },
                    None => {
                        assert(!all_inside(clip_map@, source.width as nat, source.height as nat)) by {
                            assert(clip_map@[e as int].1@[i as int] == d);
                        }
                        return None;
                    },
                }
                i = i + 1;
                assert(descs@.subrange(0, i as int).drop_last() == descs@.subrange(0, i - 1));
            }
            assert(descs@.subrange(0, descs@.len() as int) == descs@);
            let ghost before = clips@;
            clips.insert(key, made);
            proof {
                let pre = clip_map@.subrange(0, e as int);
                let post = clip_map@.subrange(0, e + 1);
                assert(post.drop_last() == pre);
                assert(post.last() == clip_map@[e as int]);
                assert(clips@.dom() =~= entries_map(post).dom());
                assert forall|a: int, b: int|
                    0 <= a < post.len() && 0 <= b < post[a].1@.len() implies rect_inside(
                    (#[trigger] post[a].1@[b]).rect,
                    source.width as nat,
                    source.height as nat,
                ) by {
                    if a < e {
                        assert(post[a] == pre[a]);
                    }
                }
            }
            e = e + 1;
        }
        assert(clip_map@.subrange(0, clip_map@.len() as int) == clip_map@);
        let r = SpriteSheet { clips };
        assert(r.wf()) by {
            assert forall|k: u32, i: int|
                r.clips@.contains_key(k) && 0 <= i < r.clips@[k]@.len() implies (
                #[trigger] r.clips@[k]@[i]).wf() by {
                assert(r.clips@[k]@[i].made_from(source.grid(), entries_map(clip_map@)[k][i]));
            }
        }
        Some(r)
    }

    /// The clip at `index` of the state `key`.
    pub fn get_clip(&self, key: u32, index: usize) -> (r: &Clip)
        requires
            self.has_frames(key, index as nat + 1),
        ensures
            *r == self.clips@[key]@[index as int],
    {
        let clips = self.clips.get(&key).unwrap();
        &clips[index]
    }
}

} // verus!
