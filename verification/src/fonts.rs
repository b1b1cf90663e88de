//! Fonts: which family the interface uses, and which the terminal can choose from.

use vstd::prelude::*;

use crate::order::{
    add_distinct, distinct, index_views, key_order, keys_of, law_distinct, law_order_is_complete,
    law_order_is_sorted_and_stable, order_by_key,
};
use crate::text::{same_text, text_le, texts, to_chars, trim_text, trimmed};

verus! {

// ---- The font database ----------------------------------------------------

/// A font face: its family names, the first one in English if it has one, and whether it is
/// monospaced.
pub struct Face {
    pub families: Vec<String>,
    pub monospaced: bool,
}

/// What a font face holds.
#[verifier::ext_equal]
pub ghost struct FaceView {
    pub families: Seq<Seq<char>>,
    pub monospaced: bool,
}

impl View for Face {
    type V = FaceView;

    open spec fn view(&self) -> FaceView {
        FaceView { families: texts(self.families@), monospaced: self.monospaced }
    }
}

/// What each of a list of faces holds.
pub open spec fn face_views(list: Seq<Face>) -> Seq<FaceView> {
    list.map_values(|f: Face| f@)
}

/// `fontdb::Database`: a collection of font faces, opaque here but for what it holds.
#[verifier::external_type_specification]
#[verifier::external_body]
pub struct ExDatabase(fontdb::Database);

/// The name of what a font database holds, in the order in which it is walked.
pub uninterp spec fn font_faces(db: fontdb::Database) -> Seq<FaceView>;

/// `fontdb::Database::faces`: the faces that the database holds, in its order.
#[verifier::external_body]
pub(crate) fn faces_of(db: &fontdb::Database) -> (r: Vec<Face>)
    ensures
        face_views(r@) == font_faces(*db),
{
    db.faces().map(
        |f| Face {
            families: f.families.iter().map(|n| n.0.clone()).collect(),
            monospaced: f.monospaced,
        },
    ).collect()
}

/// `fontdb::Database::query` for one family name at normal weight, stretch and style: there is a
/// best match as soon as some face has the family name, and none otherwise.
#[verifier::external_body]
pub(crate) fn resolves(db: &fontdb::Database, name: &str) -> (r: bool)
    ensures
        r == has_family(font_faces(*db), name@),
{
    let query = fontdb::Query {
        families: &[fontdb::Family::Name(name)],
        weight: fontdb::Weight::NORMAL,
        stretch: fontdb::Stretch::Normal,
        style: fontdb::Style::Normal,
    };
    db.query(&query).is_some()
}

/// Whether some face has a family name.
pub open spec fn has_family(faces: Seq<FaceView>, name: Seq<char>) -> bool {
    exists|i: int| 0 <= i < faces.len() && (#[trigger] faces[i]).families.contains(name)
}

// ---- The font of the interface --------------------------------------------

/// The platforms whose fonts differ.
#[derive(Clone, Copy, Debug, PartialEq, Eq, Structural)]
pub enum Platform {
    MacOs,
    Windows,
    Other,
}

/// The CJK-capable system families of a platform, most-preferred first. On macOS the older
/// families come first, because the modern ones come out blank on some machines.
pub open spec fn candidates(platform: Platform) -> Seq<Seq<char>> {
    match platform {
        Platform::MacOs => seq![
            "Heiti SC"@,
            "STHeiti"@,
            "Songti SC"@,
            "PingFang SC"@,
            "Hiragino Sans GB"@,
        ],
        Platform::Windows => seq![
            "Microsoft YaHei UI"@,
            "Microsoft YaHei"@,
            "SimHei"@,
            "SimSun"@,
        ],
        Platform::Other => seq![
            "Noto Sans CJK SC"@,
            "Noto Sans CJK"@,
            "Source Han Sans SC"@,
            "WenQuanYi Micro Hei"@,
            "Droid Sans Fallback"@,
        ],
    }
}

/// The CJK-capable system families of a platform, most-preferred first.
pub fn ui_font_candidates(platform: Platform) -> (r: Vec<String>)
    ensures
        texts(r@) == candidates(platform),
{
    let r: Vec<String> = match platform {
        Platform::MacOs => vec![
            "Heiti SC".to_owned(),
            "STHeiti".to_owned(),
            "Songti SC".to_owned(),
            "PingFang SC".to_owned(),
            "Hiragino Sans GB".to_owned(),
        ],
        Platform::Windows => vec![
            "Microsoft YaHei UI".to_owned(),
            "Microsoft YaHei".to_owned(),
            "SimHei".to_owned(),
            "SimSun".to_owned(),
        ],
        Platform::Other => vec![
            "Noto Sans CJK SC".to_owned(),
            "Noto Sans CJK".to_owned(),
            "Source Han Sans SC".to_owned(),
            "WenQuanYi Micro Hei".to_owned(),
            "Droid Sans Fallback".to_owned(),
        ],
    };
    assert(texts(r@) =~= candidates(platform));
    r
}

/// The first name from `i` on that some face has, or the embedded font.
pub open spec fn first_resolving(faces: Seq<FaceView>, names: Seq<Seq<char>>, i: int) -> Seq<char>
    decreases names.len() - i,
{
    if i < 0 || i >= names.len() {
        "Meatshell Mono"@
    } else if has_family(faces, names[i]) {
        names[i]
    } else {
        first_resolving(faces, names, i + 1)
    }
}

/// The font of the interface: the one that is forced, unless it is blank; otherwise the first
/// candidate that resolves; otherwise the embedded one.
pub open spec fn ui_font(
    faces: Seq<FaceView>,
    forced: Option<Seq<char>>,
    names: Seq<Seq<char>>,
) -> Seq<char> {
    match forced {
        Some(f) => if trimmed(f).len() > 0 {
            f
        } else {
            first_resolving(faces, names, 0)
        },
        None => first_resolving(faces, names, 0),
    }
}

/// The text of an optional string slice.
pub open spec fn opt_str(s: Option<&str>) -> Option<Seq<char>> {
    match s {
        Some(x) => Some(x@),
        None => None,
    }
}

/// Choose a UI font family that the font database can actually resolve, falling back to the
/// embedded "Meatshell Mono" when the database is empty or unreadable: a name that resolves to
/// nothing would leave the whole window blank. `forced` is the user's override; a blank one is
/// ignored.
pub fn resolve_ui_font_family(
    db: &fontdb::Database,
    forced: Option<&str>,
    platform: Platform,
) -> (r: String)
    ensures
        r@ == ui_font(font_faces(*db), opt_str(forced), candidates(platform)),
{
    if let Some(f) = forced {
        if !trim_text(f).as_str().is_empty() {
            return f.to_owned();
        }
    }
    let names = ui_font_candidates(platform);
    let ghost ns = texts(names@);
    let ghost faces = font_faces(*db);
    let mut i: usize = 0;
    while i < names.len()
        invariant
            i <= names@.len(),
            ns == texts(names@),
            faces == font_faces(*db),
            ns == candidates(platform),
            ui_font(faces, opt_str(forced), ns) == first_resolving(faces, ns, i as int),
        decreases names@.len() - i,
    {
        assert(ns[i as int] == names@[i as int]@);
        if resolves(db, names[i].as_str()) {
            return names[i].clone();
        }
        i += 1;
    }
    assert(ns.len() == names@.len());
    "Meatshell Mono".to_owned()
}

// ---- Fonts of the terminal ------------------------------------------------

/// The family names of the first `n` faces that are monospaced and have one, without the
/// embedded font.
pub open spec fn mono_names(faces: Seq<FaceView>, n: int) -> Seq<Seq<char>>
    decreases n,
{
    if n <= 0 {
        Seq::empty()
    } else {
        let before = mono_names(faces, n - 1);
        let f = faces[n - 1];
        if f.monospaced && f.families.len() > 0 && f.families[0] != "Meatshell Mono"@ {
            before.push(f.families[0])
        } else {
            before
        }
    }
}

/// The fonts to choose from: the embedded one first, then the installed monospaced families,
/// each once, in order.
pub open spec fn terminal_fonts(faces: Seq<FaceView>) -> Seq<Seq<char>> {
    let d = distinct(mono_names(faces, faces.len() as int));
    seq!["Meatshell Mono"@] + key_order(d, d.len() as int).map_values(|i: int| d[i])
}

/// The fonts to choose from, given the installed faces.
pub fn fonts_to_choose(faces: &Vec<Face>) -> (r: Vec<String>)
    ensures
        texts(r@) == terminal_fonts(face_views(faces@)),
{
    let ghost fs = face_views(faces@);
    let mut names: Vec<String> = Vec::new();
    let mut i: usize = 0;
    assert(texts(names@) =~= distinct(mono_names(fs, 0)));
    while i < faces.len()
        invariant
            i <= faces@.len(),
            fs == face_views(faces@),
            texts(names@) == distinct(mono_names(fs, i as int)),
        decreases faces@.len() - i,
    {
        let f = &faces[i];
        assert(fs[i as int] == f@);
        assert(f@.families.len() == f.families@.len());
        if f.monospaced && f.families.len() > 0 {
            assert(f@.families[0] == f.families@[0]@);
            if !same_text(f.families[0].as_str(), "Meatshell Mono") {
                proof {
                    let after = mono_names(fs, i + 1);
                    assert(after.drop_last() =~= mono_names(fs, i as int));
                    assert(after.last() == f.families@[0]@);
                }
                add_distinct(&mut names, f.families[0].as_str());
            }
        }
        i += 1;
    }
    assert(fs.len() == faces@.len());
    let ghost d = texts(names@);
    let mut keys: Vec<Vec<char>> = Vec::new();
    let mut k: usize = 0;
    while k < names.len()
        invariant
            k <= names@.len(),
            keys@.len() == k,
            forall|j: int| 0 <= j < k ==> (#[trigger] keys@[j])@ == names@[j]@,
        decreases names@.len() - k,
    {
        keys.push(to_chars(names[k].as_str()));
        k += 1;
    }
    assert(keys_of(keys@) =~= d);
    let order = order_by_key(&keys);
    let ghost want = key_order(d, d.len() as int).map_values(|i: int| d[i]);
    let mut r: Vec<String> = Vec::new();
    let first = "Meatshell Mono".to_owned();
    r.push(first);
    assert(texts(r@) =~= seq!["Meatshell Mono"@] + want.take(0));
    let mut m: usize = 0;
    while m < order.len()
        invariant
            m <= order@.len(),
            order@.len() == names@.len(),
            d == texts(names@),
            index_views(order@) == key_order(d, d.len() as int),
            want == key_order(d, d.len() as int).map_values(|i: int| d[i]),
            forall|j: int| 0 <= j < order@.len() ==> #[trigger] order@[j] < names@.len(),
            texts(r@) == seq!["Meatshell Mono"@] + want.take(m as int),
        decreases order@.len() - m,
    {
        let ghost before = r@;
        let name = names[order[m]].clone();
        r.push(name);
        proof {
            assert(index_views(order@)[m as int] == order@[m as int]);
            assert(want[m as int] == name@);
            assert(texts(r@) =~= texts(before).push(name@));
            assert(want.take(m + 1) =~= want.take(m as int).push(name@));
            assert(seq!["Meatshell Mono"@] + want.take(m + 1) =~= (seq!["Meatshell Mono"@]
                + want.take(m as int)).push(name@));
        }
        m += 1;
    }
    assert(index_views(order@).len() == order@.len());
    assert(want.take(m as int) =~= want);
    r
}

/// The monospace families to choose from for the terminal. The built-in glyph-complete font comes
/// first, so that it is selectable: it is no system face.
pub fn system_monospace_fonts(db: &fontdb::Database) -> (r: Vec<String>)
    ensures
        texts(r@) == terminal_fonts(font_faces(*db)),
{
    let faces = faces_of(db);
    fonts_to_choose(&faces)
}

// ---- Laws -----------------------------------------------------------------

/// The window is never left blank: the font that is chosen, unless it was forced, is one that
/// some face has or the embedded one.
pub proof fn law_chosen_font_resolves(faces: Seq<FaceView>, names: Seq<Seq<char>>, i: int)
    requires
        0 <= i <= names.len(),
    ensures
        ({
            let f = first_resolving(faces, names, i);
            f == "Meatshell Mono"@ || (has_family(faces, f) && names.contains(f))
        }),
    decreases names.len() - i,
{
    if i < names.len() {
        if has_family(faces, names[i]) {
            assert(names.contains(names[i]));
        } else {
            law_chosen_font_resolves(faces, names, i + 1);
        }
    }
}

/// With no fonts at all the embedded one is chosen.
pub proof fn law_empty_database_falls_back(names: Seq<Seq<char>>, i: int)
    requires
        0 <= i <= names.len(),
    ensures
        first_resolving(Seq::empty(), names, i) == "Meatshell Mono"@,
    decreases names.len() - i,
{
    if i < names.len() {
        law_empty_database_falls_back(names, i + 1);
    }
}

/// The list to choose from starts with the embedded font, has no font twice, and is in order
/// after the first.
pub proof fn law_terminal_fonts(faces: Seq<FaceView>)
    ensures
        terminal_fonts(faces).len() > 0,
        terminal_fonts(faces)[0] == "Meatshell Mono"@,
        terminal_fonts(faces).no_duplicates(),
        forall|a: int, b: int|
            1 <= a < b < terminal_fonts(faces).len() ==> text_le(
                #[trigger] terminal_fonts(faces)[a],
                #[trigger] terminal_fonts(faces)[b],
            ),
{
    let names = mono_names(faces, faces.len() as int);
    let d = distinct(names);
    let n = d.len() as int;
    law_distinct(names);
    law_order_is_complete(d, n);
    law_order_is_sorted_and_stable(d, n);
    lemma_no_embedded(faces, faces.len() as int);
    let o = key_order(d, n);
    let all = terminal_fonts(faces);
    assert forall|a: int, b: int| 0 <= a < b < all.len() implies all[a] != all[b] by {
        assert(all[b] == d[o[b - 1]]);
        if a > 0 {
            assert(all[a] == d[o[a - 1]]);
            assert(o[a - 1] != o[b - 1]);
        } else {
            assert(d.contains(all[b]));
            assert(names.contains(all[b]));
        }
    }
    assert forall|a: int, b: int| 1 <= a < b < all.len() implies text_le(
        #[trigger] all[a],
        #[trigger] all[b],
    ) by {
        assert(all[a] == d[o[a - 1]] && all[b] == d[o[b - 1]]);
    }
}

proof fn lemma_no_embedded(faces: Seq<FaceView>, n: int)
    requires
        0 <= n <= faces.len(),
    ensures
        !mono_names(faces, n).contains("Meatshell Mono"@),
    decreases n,
{
    if n > 0 {
        lemma_no_embedded(faces, n - 1);
        let before = mono_names(faces, n - 1);
        let after = mono_names(faces, n);
        if after.contains("Meatshell Mono"@) {
            let k = choose|k: int| 0 <= k < after.len() && after[k] == "Meatshell Mono"@;
            if k < before.len() {
                assert(before[k] == "Meatshell Mono"@);
            }
        }
    }
}

/// A font that is forced is used as it is, unless it is blank; otherwise the first candidate that
/// some installed face has; otherwise the embedded one.
pub proof fn law_first_candidate_is_used(
    faces: Seq<FaceView>,
    forced: Option<Seq<char>>,
    names: Seq<Seq<char>>,
    i: int,
)
    requires
        0 <= i <= names.len(),
        i < names.len() ==> exists|f: int|
            0 <= f < faces.len() && (#[trigger] faces[f]).families.contains(names[i]),
        forall|k: int, f: int|
            0 <= k < i && 0 <= f < faces.len() ==> !(#[trigger] faces[f]).families.contains(
                #[trigger] names[k],
            ),
    ensures
        forced matches Some(f) ==> (trimmed(f).len() > 0 ==> ui_font(faces, forced, names) == f),
        !(forced matches Some(f) && trimmed(f).len() > 0) ==> ui_font(faces, forced, names) == if i
            < names.len() {
            names[i]
        } else {
            "Meatshell Mono"@
        },
{
    lemma_first_resolving(faces, names, 0, i);
}

proof fn lemma_first_resolving(faces: Seq<FaceView>, names: Seq<Seq<char>>, from: int, i: int)
    requires
        0 <= from <= i <= names.len(),
        i < names.len() ==> exists|f: int|
            0 <= f < faces.len() && (#[trigger] faces[f]).families.contains(names[i]),
        forall|k: int, f: int|
            0 <= k < i && 0 <= f < faces.len() ==> !(#[trigger] faces[f]).families.contains(
                #[trigger] names[k],
            ),
    ensures
        first_resolving(faces, names, from) == if i < names.len() {
            names[i]
        } else {
            "Meatshell Mono"@
        },
    decreases i - from,
{
    if from < i {
        assert(!has_family(faces, names[from]));
        lemma_first_resolving(faces, names, from + 1, i);
    }
}

proof fn lemma_mono_names(faces: Seq<FaceView>, n: int, g: Seq<char>)
    requires
        0 <= n <= faces.len(),
        g != "Meatshell Mono"@,
    ensures
        mono_names(faces, n).contains(g) <==> exists|i: int|
            0 <= i < n && (#[trigger] faces[i]).monospaced && faces[i].families.len() > 0
                && faces[i].families[0] == g,
    decreases n,
{
    if n > 0 {
        lemma_mono_names(faces, n - 1, g);
        let before = mono_names(faces, n - 1);
        let after = mono_names(faces, n);
        let f = faces[n - 1];
        if before.contains(g) {
            let k = choose|k: int| 0 <= k < before.len() && before[k] == g;
            assert(after[k] == g);
        }
        if f.monospaced && f.families.len() > 0 && f.families[0] == g {
            assert(after[before.len() as int] == g);
        }
        if after.contains(g) && !before.contains(g) {
            let k = choose|k: int| 0 <= k < after.len() && after[k] == g;
            if k < before.len() {
                assert(before[k] == g);
            }
            assert(faces[n - 1].families[0] == g);
        }
    }
}

/// The fonts to choose from are the embedded one and, by its first name, every installed one that
/// is monospaced; no other.
pub proof fn law_every_monospaced_font_can_be_chosen(faces: Seq<FaceView>, g: Seq<char>)
    ensures
        terminal_fonts(faces).contains("Meatshell Mono"@),
        g != "Meatshell Mono"@ ==> (terminal_fonts(faces).contains(g) <==> exists|i: int|
            0 <= i < faces.len() && (#[trigger] faces[i]).monospaced && faces[i].families.len() > 0
                && faces[i].families[0] == g),
{
    let names = mono_names(faces, faces.len() as int);
    let d = distinct(names);
    let n = d.len() as int;
    let o = key_order(d, n);
    let all = terminal_fonts(faces);
    law_distinct(names);
    law_order_is_complete(d, n);
    assert(all[0] == "Meatshell Mono"@);
    if g != "Meatshell Mono"@ {
        lemma_mono_names(faces, faces.len() as int, g);
        if d.contains(g) {
            let k = choose|k: int| 0 <= k < d.len() && d[k] == g;
            assert(o.contains(k));
            let j = choose|j: int| 0 <= j < o.len() && o[j] == k;
            assert(all[j + 1] == d[o[j]]);
        }
        if all.contains(g) {
            let j = choose|j: int| 0 <= j < all.len() && all[j] == g;
            assert(all[j] == d[o[j - 1]]);
            assert(d.contains(g));
        }
    }
}

} // verus!
