//! Filtered export: select photographs by tag and minimum rating, and name
//! copies in the flat destination directory without collisions.

use vstd::prelude::*;
use crate::metadata::{lemma_filter_push, meta_find, Metadata, MetaModel};
use crate::naming::{name_candidate, pick_free_name};
use crate::pathutil::{copy_range, last_index_of, rfind_char};
use crate::strutil::{chars_of, contains_string, views_of};

verus! {

/// The view of an optional borrowed string.
pub open spec fn opt_str_view(o: Option<&str>) -> Option<Seq<char>> {
    match o {
        Some(s) => Some(s@),
        None => None,
    }
}

/// The export filter: a file passes when it carries the wanted tag (if one
/// is wanted) and is rated at least the wanted minimum (if one is wanted).
pub open spec fn export_pred(
    m: MetaModel,
    tag: Option<Seq<char>>,
    min_rating: Option<u8>,
) -> spec_fn(Seq<char>) -> bool {
    |f: Seq<char>|
        {
            &&& match tag {
                Some(t) => match meta_find(m, f) {
                    Some(info) => info.tags.contains(t),
                    None => false,
                },
                None => true,
            }
            &&& match min_rating {
                Some(mn) => match meta_find(m, f) {
                    Some(info) => info.rating is Some && info.rating->0 >= mn,
                    None => false,
                },
                None => true,
            }
        }
}

/// The files among `all_files` that pass the tag and rating filters, in
/// their given order.
pub fn filter_files(
    metadata: &Metadata,
    all_files: &Vec<String>,
    tag: Option<&str>,
    min_rating: Option<u8>,
) -> (r: Vec<String>)
    ensures
        views_of(r@) == views_of(all_files@).filter(
            export_pred(metadata@, opt_str_view(tag), min_rating),
        ),
{
    let ghost pred = export_pred(metadata@, opt_str_view(tag), min_rating);
    let mut r: Vec<String> = Vec::new();
    let mut i: usize = 0;
    while i < all_files.len()
        invariant
            i <= all_files@.len(),
            pred == export_pred(metadata@, opt_str_view(tag), min_rating),
            views_of(r@) == views_of(all_files@).subrange(0, i as int).filter(pred),
        decreases all_files@.len() - i,
    {
        proof {
            lemma_filter_push(
                views_of(all_files@).subrange(0, i as int),
                all_files@[i as int]@,
                pred,
            );
            assert(views_of(all_files@).subrange(0, i as int + 1) =~= views_of(
                all_files@,
            ).subrange(0, i as int).push(all_files@[i as int]@));
        }
        let f = &all_files[i];
        let tag_ok = match tag {
            Some(t) => {
                let tags = metadata.get_tags(f.as_str());
                contains_string(&tags, t)
            },
            None => true,
        };
        let rating_ok = match min_rating {
            Some(mn) => {
                match metadata.get_rating(f.as_str()) {
                    Some(rt) => rt >= mn,
                    None => false,
                }
            },
            None => true,
        };
        proof {
            assert((tag_ok && rating_ok) == pred(all_files@[i as int]@));
        }
        if tag_ok && rating_ok {
            r.push(f.clone());
            proof {
                assert(views_of(r@) =~= views_of(all_files@).subrange(0, i as int + 1).filter(
                    pred,
                ));
            }
        } else {
            proof {
                assert(views_of(r@) =~= views_of(all_files@).subrange(0, i as int + 1).filter(
                    pred,
                ));
            }
        }
        i = i + 1;
    }
    proof {
        assert(views_of(all_files@).subrange(0, views_of(all_files@).len() as int) =~= views_of(
            all_files@,
        ));
    }
    r
}

/// The stem of an exported file name: what stands before the last dot, or
/// the whole name when the dot is absent or leading.
pub open spec fn export_stem(name: Seq<char>) -> Seq<char> {
    let d = last_index_of(name, '.');
    if d <= 0 {
        name
    } else {
        name.subrange(0, d)
    }
}

/// The extension of an exported file name; empty when the dot is absent or
/// leading.
pub open spec fn export_ext(name: Seq<char>) -> Seq<char> {
    let d = last_index_of(name, '.');
    if d <= 0 {
        Seq::empty()
    } else {
        name.subrange(d + 1, name.len() as int)
    }
}

/// The `k`-th candidate name for an exported copy of `name`.
pub open spec fn export_candidate(name: Seq<char>, k: int) -> Seq<char> {
    name_candidate(name, export_stem(name), export_ext(name), k)
}

/// A name for the exported copy of `filename` that collides with none of
/// `taken`: the plain name if free, else `stem_k.ext` with the smallest free
/// `k`.
pub fn next_export_name(filename: &str, taken: &Vec<String>) -> (r: String)
    requires
        taken@.len() < usize::MAX - 1,
    ensures
        !views_of(taken@).contains(r@),
        exists|k: int|
            0 <= k && r@ == export_candidate(filename@, k) && !views_of(taken@).contains(
                #[trigger] export_candidate(filename@, k),
            ) && forall|j: int|
                0 <= j < k ==> views_of(taken@).contains(#[trigger] export_candidate(filename@, j)),
{
    let v = chars_of(filename);
    let n = v.len();
    let (stem, ext): (Vec<char>, Vec<char>) = match rfind_char(&v, '.') {
        Some(d) if d > 0 => (copy_range(&v, 0, d), copy_range(&v, d + 1, n)),
        _ => (copy_range(&v, 0, n), Vec::new()),
    };
    proof {
        crate::pathutil::lemma_last_index_of(filename@, '.');
        assert(stem@ =~= export_stem(filename@));
        assert(ext@ =~= export_ext(filename@));
        if last_index_of(filename@, '.') > 0 {
            assert(filename@[stem@.len() as int] == '.');
        } else {
            assert(filename@ =~= stem@);
        }
    }
    let first = filename.to_owned();
    let r = pick_free_name(first, &stem, &ext, taken);
    proof {
        let k = choose|k: int|
            0 <= k && r@ == name_candidate(filename@, stem@, ext@, k) && !views_of(
                taken@,
            ).contains(#[trigger] name_candidate(filename@, stem@, ext@, k)) && forall|j: int|
                0 <= j < k ==> views_of(taken@).contains(
                    #[trigger] name_candidate(filename@, stem@, ext@, j),
                );
        assert(r@ == export_candidate(filename@, k));
        assert forall|j: int| 0 <= j < k implies views_of(taken@).contains(
            #[trigger] export_candidate(filename@, j),
        ) by {
            assert(views_of(taken@).contains(name_candidate(filename@, stem@, ext@, j)));
        }
    }
    r
}

} // verus!
