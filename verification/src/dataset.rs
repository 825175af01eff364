//! Finding a complete data set (MAPHEAD, GAMEMAPS and VSWAP with one common
//! extension) among the files of a directory, ignoring ASCII case in file names.

use vstd::prelude::*;
use vstd::string::StringSliceAdditionalSpecFns;
use crate::data::DataError;

verus! {

/// What is known about a data directory: its path, which of the candidate file names
/// exist there exactly as written, and the names of its files in listing order.
pub struct DataDirectory {
    pub path: String,
    pub exact_names: Vec<String>,
    pub listed_names: Vec<String>,
}

/// The files of a data set, by their names in the data directory.
pub struct DataSetFiles {
    pub extension: String,
    pub maphead: String,
    pub gamemaps: String,
    pub vswap: String,
}

/// The data-set extensions, in the order they are tried.
pub open spec fn extension_at(k: int) -> Seq<char> {
    if k == 0 {
        "WL6"@
    } else if k == 1 {
        "WL1"@
    } else if k == 2 {
        "SDM"@
    } else {
        "SOD"@
    }
}

/// How many data-set extensions there are.
pub const EXTENSION_COUNT: usize = 4;

/// The views of a list of names.
pub open spec fn name_views(names: Seq<String>) -> Seq<Seq<char>> {
    names.map_values(|name: String| name@)
}

/// A byte with ASCII upper-case letters folded to lower case.
pub open spec fn ascii_lower(b: u8) -> u8 {
    if 65 <= b <= 90 {
        (b + 32) as u8
    } else {
        b
    }
}

/// Whether two byte strings are equal when ASCII letter case is ignored.
pub open spec fn same_ignoring_ascii_case(a: Seq<u8>, b: Seq<u8>) -> bool {
    &&& a.len() == b.len()
    &&& forall|i: int| 0 <= i < a.len() ==> ascii_lower(#[trigger] a[i]) == ascii_lower(b[i])
}

/// The first listed name, at or after position `k`, that matches `expected` ignoring ASCII case.
pub open spec fn first_case_match(listed: Seq<Seq<char>>, expected: Seq<char>, k: int) -> Option<
    Seq<char>,
>
    decreases listed.len() - k,
{
    if k < 0 || k >= listed.len() {
        None
    } else if same_ignoring_ascii_case(
        vstd::utf8::encode_utf8(listed[k]),
        vstd::utf8::encode_utf8(expected),
    ) {
        Some(listed[k])
    } else {
        first_case_match(listed, expected, k + 1)
    }
}

/// The name under which the file `expected` is found: the name itself when it exists
/// exactly, otherwise the first listed name that matches it ignoring ASCII case.
pub open spec fn found_name(exact: Seq<Seq<char>>, listed: Seq<Seq<char>>, expected: Seq<char>) -> Option<
    Seq<char>,
> {
    if exact.contains(expected) {
        Some(expected)
    } else {
        first_case_match(listed, expected, 0)
    }
}

/// The names of the three files of a data set with extension `ext`.
pub open spec fn maphead_name(ext: Seq<char>) -> Seq<char> {
    "MAPHEAD."@ + ext
}

pub open spec fn gamemaps_name(ext: Seq<char>) -> Seq<char> {
    "GAMEMAPS."@ + ext
}

pub open spec fn vswap_name(ext: Seq<char>) -> Seq<char> {
    "VSWAP."@ + ext
}

/// The first extension, from position `k` of the candidate order on, for which all
/// three files are found, with the names they were found under.
pub open spec fn data_set_from(exact: Seq<Seq<char>>, listed: Seq<Seq<char>>, k: int) -> Option<
    (Seq<char>, Seq<char>, Seq<char>, Seq<char>),
>
    decreases EXTENSION_COUNT - k,
{
    if k < 0 || k >= EXTENSION_COUNT {
        None
    } else {
        let ext = extension_at(k);
        match (
            found_name(exact, listed, maphead_name(ext)),
            found_name(exact, listed, gamemaps_name(ext)),
            found_name(exact, listed, vswap_name(ext)),
        ) {
            (Some(maphead), Some(gamemaps), Some(vswap)) => Some((ext, maphead, gamemaps, vswap)),
            _ => data_set_from(exact, listed, k + 1),
        }
    }
}

/// The data set the directory holds, trying extensions in order.
pub open spec fn data_set_in(dir: DataDirectory) -> Option<
    (Seq<char>, Seq<char>, Seq<char>, Seq<char>),
> {
    data_set_from(name_views(dir.exact_names@), name_views(dir.listed_names@), 0)
}

/// A name found by the case-blind search is one of the listed names and matches the
/// expected name when ASCII case is ignored.
pub proof fn lemma_case_match_is_listed(listed: Seq<Seq<char>>, expected: Seq<char>, k: int)
    ensures
        first_case_match(listed, expected, k) matches Some(name) ==> {
            &&& listed.contains(name)
            &&& same_ignoring_ascii_case(
                vstd::utf8::encode_utf8(name),
                vstd::utf8::encode_utf8(expected),
            )
        },
    decreases listed.len() - k,
{
    if 0 <= k < listed.len() {
        if same_ignoring_ascii_case(
            vstd::utf8::encode_utf8(listed[k]),
            vstd::utf8::encode_utf8(expected),
        ) {
            assert(listed[k] == listed[k]);
        } else {
            lemma_case_match_is_listed(listed, expected, k + 1);
        }
    }
}

/// Whether listed name `name` is `expected` when ASCII case is ignored.
pub open spec fn case_blind_equal(name: Seq<char>, expected: Seq<char>) -> bool {
    same_ignoring_ascii_case(vstd::utf8::encode_utf8(name), vstd::utf8::encode_utf8(expected))
}

/// The case-blind search from position `k` gives the first listed name, at or after
/// `k`, that is `expected` ignoring ASCII case, and nothing when there is none.
proof fn lemma_first_case_match_is_first(listed: Seq<Seq<char>>, expected: Seq<char>, k: int)
    requires
        0 <= k,
    ensures
        first_case_match(listed, expected, k) matches Some(name) ==> exists|j: int|
            k <= j < listed.len() && listed[j] == name && case_blind_equal(listed[j], expected)
                && forall|m: int| k <= m < j ==> !case_blind_equal(#[trigger] listed[m], expected),
        first_case_match(listed, expected, k) is None ==> forall|m: int|
            k <= m < listed.len() ==> !case_blind_equal(#[trigger] listed[m], expected),
    decreases listed.len() - k,
{
    if k < listed.len() {
        lemma_first_case_match_is_first(listed, expected, k + 1);
        if !case_blind_equal(listed[k], expected) {
            if let Some(name) = first_case_match(listed, expected, k) {
                let j = choose|j: int|
                    k + 1 <= j < listed.len() && listed[j] == name && case_blind_equal(
                        listed[j],
                        expected,
                    ) && forall|m: int|
                        k + 1 <= m < j ==> !case_blind_equal(#[trigger] listed[m], expected);
                assert(forall|m: int| k <= m < j ==> !case_blind_equal(#[trigger] listed[m], expected));
            }
        }
    }
}

/// Where the file `expected` is found: under its own name when that name exists
/// exactly; otherwise under the first listed name that is it ignoring ASCII case; and
/// nowhere when neither holds.
pub proof fn lemma_found_name(exact: Seq<Seq<char>>, listed: Seq<Seq<char>>, expected: Seq<char>)
    ensures
        exact.contains(expected) ==> found_name(exact, listed, expected) == Some(expected),
        !exact.contains(expected) ==> (found_name(exact, listed, expected) matches Some(name)
            ==> exists|j: int|
            0 <= j < listed.len() && listed[j] == name && case_blind_equal(listed[j], expected)
                && forall|m: int| 0 <= m < j ==> !case_blind_equal(#[trigger] listed[m], expected)),
        found_name(exact, listed, expected) is None <==> !exact.contains(expected) && forall|m: int|
            0 <= m < listed.len() ==> !case_blind_equal(#[trigger] listed[m], expected),
{
    lemma_first_case_match_is_first(listed, expected, 0);
    if !exact.contains(expected) && first_case_match(listed, expected, 0) is Some {
        let name = first_case_match(listed, expected, 0)->Some_0;
        let j = choose|j: int|
            0 <= j < listed.len() && listed[j] == name && case_blind_equal(listed[j], expected)
                && forall|m: int| 0 <= m < j ==> !case_blind_equal(#[trigger] listed[m], expected);
        assert(case_blind_equal(listed[j], expected));
    }
}

/// Whether `name` is a name the directory has for the file `expected`: a name of the
/// directory (exactly present, or listed) that is `expected` up to ASCII case, and the
/// one the search for `expected` finds.
pub open spec fn names_file(
    exact: Seq<Seq<char>>,
    listed: Seq<Seq<char>>,
    expected: Seq<char>,
    name: Seq<char>,
) -> bool {
    &&& exact.contains(name) || listed.contains(name)
    &&& name == expected || same_ignoring_ascii_case(
        vstd::utf8::encode_utf8(name),
        vstd::utf8::encode_utf8(expected),
    )
    &&& found_name(exact, listed, expected) == Some(name)
}

/// A detected data set reports one of the candidate extensions and, for each of its
/// three files, a name that the directory really has for it.
pub proof fn lemma_data_set_names_exist(exact: Seq<Seq<char>>, listed: Seq<Seq<char>>, k: int)
    ensures
        data_set_from(exact, listed, k) matches Some((ext, maphead, gamemaps, vswap)) ==> {
            &&& exists|j: int| 0 <= j < EXTENSION_COUNT && ext == extension_at(j)
            &&& names_file(exact, listed, maphead_name(ext), maphead)
            &&& names_file(exact, listed, gamemaps_name(ext), gamemaps)
            &&& names_file(exact, listed, vswap_name(ext), vswap)
        },
    decreases EXTENSION_COUNT - k,
{
    if 0 <= k < EXTENSION_COUNT {
        let ext = extension_at(k);
        lemma_case_match_is_listed(listed, maphead_name(ext), 0);
        lemma_case_match_is_listed(listed, gamemaps_name(ext), 0);
        lemma_case_match_is_listed(listed, vswap_name(ext), 0);
        lemma_data_set_names_exist(exact, listed, k + 1);
    }
}

/// Two byte strings match ignoring ASCII case exactly when they have the same length
/// and each pair of bytes is equal or is one ASCII letter in its two cases.
pub proof fn lemma_case_blind_bytes(a: Seq<u8>, b: Seq<u8>)
    ensures
        same_ignoring_ascii_case(a, b) <==> a.len() == b.len() && forall|i: int|
            0 <= i < a.len() ==> {
                ||| #[trigger] a[i] == b[i]
                ||| 65 <= a[i] <= 90 && b[i] == a[i] + 32
                ||| 65 <= b[i] <= 90 && a[i] == b[i] + 32
            },
{
}

/// The data set found is the first complete one in the order WL6, WL1, SDM, SOD: every
/// extension tried before it lacks one of its three files, and when none is found,
/// every extension lacks one.
pub proof fn lemma_data_set_first_complete(exact: Seq<Seq<char>>, listed: Seq<Seq<char>>, k: int)
    requires
        0 <= k,
    ensures
        data_set_from(exact, listed, k) matches Some((ext, m, g, v)) ==> exists|j: int|
            k <= j < EXTENSION_COUNT && ext == extension_at(j) && forall|e: int|
                k <= e < j ==> !complete_at(exact, listed, e),
        data_set_from(exact, listed, k) is None ==> forall|e: int|
            k <= e < EXTENSION_COUNT ==> !complete_at(exact, listed, e),
    decreases EXTENSION_COUNT - k,
{
    if k < EXTENSION_COUNT {
        lemma_data_set_first_complete(exact, listed, k + 1);
        if !complete_at(exact, listed, k) {
            if let Some((ext, m, g, v)) = data_set_from(exact, listed, k) {
                let j = choose|j: int|
                    k + 1 <= j < EXTENSION_COUNT && ext == extension_at(j) && forall|e: int|
                        k + 1 <= e < j ==> !complete_at(exact, listed, e);
                assert(k <= j < EXTENSION_COUNT && ext == extension_at(j) && forall|e: int|
                    k <= e < j ==> !complete_at(exact, listed, e));
            }
        } else {
            assert(data_set_from(exact, listed, k) matches Some((ext, m, g, v)) && ext
                == extension_at(k));
        }
    }
}

/// Whether all three files of the data set with the `k`-th extension are found.
pub open spec fn complete_at(exact: Seq<Seq<char>>, listed: Seq<Seq<char>>, k: int) -> bool {
    let ext = extension_at(k);
    &&& found_name(exact, listed, maphead_name(ext)) is Some
    &&& found_name(exact, listed, gamemaps_name(ext)) is Some
    &&& found_name(exact, listed, vswap_name(ext)) is Some
}

fn extension(k: usize) -> (ext: &'static str)
    requires
        k < EXTENSION_COUNT,
    ensures
        ext@ == extension_at(k as int),
{
    if k == 0 {
        "WL6"
    } else if k == 1 {
        "WL1"
    } else if k == 2 {
        "SDM"
    } else {
        "SOD"
    }
}

/// The three file names of the data set with the `k`-th extension.
pub fn data_file_names(k: usize) -> (names: (String, String, String))
    requires
        k < EXTENSION_COUNT,
    ensures
        names.0@ == maphead_name(extension_at(k as int)),
        names.1@ == gamemaps_name(extension_at(k as int)),
        names.2@ == vswap_name(extension_at(k as int)),
{
    let ext = extension(k);
    let mut maphead = String::from_str("MAPHEAD.");
    maphead.append(ext);
    let mut gamemaps = String::from_str("GAMEMAPS.");
    gamemaps.append(ext);
    let mut vswap = String::from_str("VSWAP.");
    vswap.append(ext);
    (maphead, gamemaps, vswap)
}

/// Whether two strings are equal ignoring ASCII letter case.
pub fn eq_ignore_ascii_case(a: &str, b: &str) -> (same: bool)
    ensures
        same == same_ignoring_ascii_case(a.spec_bytes(), b.spec_bytes()),
{
    let x = a.as_bytes();
    let y = b.as_bytes();
    if x.len() != y.len() {
        return false;
    }
    let len = x.len();
    for i in 0..len
        invariant
            len == x@.len(),
            len == y@.len(),
            x@ == a.spec_bytes(),
            y@ == b.spec_bytes(),
            forall|j: int| 0 <= j < i ==> ascii_lower(#[trigger] x@[j]) == ascii_lower(y@[j]),
    {
        let p = if 65 <= x[i] && x[i] <= 90 {
            x[i] + 32
        } else {
            x[i]
        };
        let q = if 65 <= y[i] && y[i] <= 90 {
            y[i] + 32
        } else {
            y[i]
        };
        if p != q {
            assert(ascii_lower(a.spec_bytes()[i as int]) != ascii_lower(b.spec_bytes()[i as int]));
            return false;
        }
    }
    true
}

fn contains_name(names: &Vec<String>, expected: &String) -> (found: bool)
    ensures
        found == name_views(names@).contains(expected@),
{
    let len = names.len();
    for i in 0..len
        invariant
            len == names@.len(),
            forall|j: int| 0 <= j < i ==> names@[j]@ != expected@,
    {
        if names[i] == *expected {
            assert(name_views(names@)[i as int] == expected@);
            return true;
        }
    }
    proof {
        if name_views(names@).contains(expected@) {
            let j = choose|j: int| 0 <= j < name_views(names@).len() && name_views(names@)[j] == expected@;
            assert(names@[j]@ == expected@);
        }
    }
    false
}

/// The name under which the file `expected_name` is found in the directory: the name
/// itself when it exists exactly, otherwise the first listed name that matches it when
/// ASCII case is ignored.
pub fn find_case_insensitive_file(dir: &DataDirectory, expected_name: &String) -> (found: Option<
    String,
>)
    ensures
        match found_name(
            name_views(dir.exact_names@),
            name_views(dir.listed_names@),
            expected_name@,
        ) {
            Some(name) => found matches Some(f) && f@ == name,
            None => found is None,
        },
{
    if contains_name(&dir.exact_names, expected_name) {
        return Some(expected_name.clone());
    }
    let len = dir.listed_names.len();
    let ghost listed = name_views(dir.listed_names@);
    for i in 0..len
        invariant
            len == dir.listed_names@.len(),
            listed == name_views(dir.listed_names@),
            !name_views(dir.exact_names@).contains(expected_name@),
            first_case_match(listed, expected_name@, i as int) == first_case_match(
                listed,
                expected_name@,
                0,
            ),
    {
        let name = &dir.listed_names[i];
        assert(listed[i as int] == name@);
        if eq_ignore_ascii_case(name.as_str(), expected_name.as_str()) {
            return Some(name.clone());
        }
    }
    None
}

/// Looks for a complete data set, trying the extensions WL6, WL1, SDM and SOD in turn.
pub fn detect_data_set(dir: &DataDirectory) -> (r: Result<DataSetFiles, DataError>)
    ensures
        match data_set_in(*dir) {
            Some((ext, maphead, gamemaps, vswap)) => r matches Ok(files) && {
                &&& files.extension@ == ext
                &&& files.maphead@ == maphead
                &&& files.gamemaps@ == gamemaps
                &&& files.vswap@ == vswap
            },
            None => r matches Err(DataError::NoSupportedDataSet(path)) && path@ == dir.path@,
        },
{
    let ghost exact = name_views(dir.exact_names@);
    let ghost listed = name_views(dir.listed_names@);
    let mut k: usize = 0;
    while k < EXTENSION_COUNT
        invariant
            k <= EXTENSION_COUNT,
            exact == name_views(dir.exact_names@),
            listed == name_views(dir.listed_names@),
            data_set_from(exact, listed, k as int) == data_set_in(*dir),
        decreases EXTENSION_COUNT - k,
    {
        let (maphead_name, gamemaps_name, vswap_name) = data_file_names(k);
        let maphead = find_case_insensitive_file(dir, &maphead_name);
        let gamemaps = find_case_insensitive_file(dir, &gamemaps_name);
        let vswap = find_case_insensitive_file(dir, &vswap_name);
        match (maphead, gamemaps, vswap) {
            (Some(maphead), Some(gamemaps), Some(vswap)) => {
                return Ok(
                    DataSetFiles {
                        extension: String::from_str(extension(k)),
                        maphead,
                        gamemaps,
                        vswap,
                    },
                );
            },
            _ => {},
        }
        k = k + 1;
    }
    Err(DataError::NoSupportedDataSet(dir.path.clone()))
}

} // verus!
