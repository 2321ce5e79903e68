//! Filename classification: which syntax flavour a file should be parsed
//! with, judged from its extension.

use vstd::prelude::*;

use crate::text::chars_to_vec;

verus! {

/// True when `s` ends with the characters of `suffix`.
pub open spec fn seq_ends_with(s: Seq<char>, suffix: Seq<char>) -> bool {
    suffix.len() <= s.len() && s.skip(s.len() - suffix.len()) == suffix
}

/// True for extensions that enable JSX parsing.
pub open spec fn spec_is_jsx_filename(s: Seq<char>) -> bool {
    ||| seq_ends_with(s, seq!['.', 'j', 's', 'x'])
    ||| seq_ends_with(s, seq!['.', 'c', 'j', 's', 'x'])
    ||| seq_ends_with(s, seq!['.', 'm', 'j', 's', 'x'])
    ||| seq_ends_with(s, seq!['.', 't', 's', 'x'])
    ||| seq_ends_with(s, seq!['.', 'c', 't', 's', 'x'])
    ||| seq_ends_with(s, seq!['.', 'm', 't', 's', 'x'])
}

/// True for extensions that enable TypeScript parsing.
pub open spec fn spec_is_typescript_filename(s: Seq<char>) -> bool {
    ||| seq_ends_with(s, seq!['.', 't', 's'])
    ||| seq_ends_with(s, seq!['.', 'c', 't', 's'])
    ||| seq_ends_with(s, seq!['.', 'm', 't', 's'])
    ||| seq_ends_with(s, seq!['.', 't', 's', 'x'])
    ||| seq_ends_with(s, seq!['.', 'c', 't', 's', 'x'])
    ||| seq_ends_with(s, seq!['.', 'm', 't', 's', 'x'])
}

/// True for extensions that force the CommonJS module kind.
pub open spec fn spec_is_explicitly_cjs_filename(s: Seq<char>) -> bool {
    ||| seq_ends_with(s, seq!['.', 'c', 'j', 's'])
    ||| seq_ends_with(s, seq!['.', 'c', 'j', 's', 'x'])
    ||| seq_ends_with(s, seq!['.', 'c', 't', 's'])
    ||| seq_ends_with(s, seq!['.', 'c', 't', 's', 'x'])
}

/// True for extensions that force the ES module kind.
pub open spec fn spec_is_explicitly_esm_filename(s: Seq<char>) -> bool {
    ||| seq_ends_with(s, seq!['.', 'm', 'j', 's'])
    ||| seq_ends_with(s, seq!['.', 'm', 'j', 's', 'x'])
    ||| seq_ends_with(s, seq!['.', 'm', 't', 's'])
    ||| seq_ends_with(s, seq!['.', 'm', 't', 's', 'x'])
}

/// True when the characters of `v` end with the characters of `suffix`.
pub fn vec_ends_with(v: &Vec<char>, suffix: &Vec<char>) -> (r: bool)
    ensures
        r == seq_ends_with(v@, suffix@),
{
    if suffix.len() > v.len() {
        return false;
    }
    let offset = v.len() - suffix.len();
    let mut i: usize = 0;
    while i < suffix.len()
        invariant
            suffix.len() <= v.len(),
            offset == v.len() - suffix.len(),
            0 <= i <= suffix.len(),
            forall|j: int| 0 <= j < i ==> v@[offset + j] == suffix@[j],
        decreases suffix.len() - i,
    {
        if v[offset + i] != suffix[i] {
            assert(v@.skip(v@.len() - suffix@.len())[i as int] != suffix@[i as int]);
            return false;
        }
        i += 1;
    }
    proof {
        assert(v@.skip(v@.len() - suffix@.len()) =~= suffix@);
    }
    true
}

fn str_ends_with(s: &str, suffix: &str) -> (r: bool)
    ensures
        r == seq_ends_with(s@, suffix@),
{
    let sv = chars_to_vec(s);
    let xv = chars_to_vec(suffix);
    vec_ends_with(&sv, &xv)
}

/// True when the filename's extension selects JSX syntax.
pub fn filename_is_jsx(filename: &str) -> (r: bool)
    ensures
        r == spec_is_jsx_filename(filename@),
{
    let r = str_ends_with(filename, ".jsx") || str_ends_with(filename, ".cjsx") || str_ends_with(
        filename,
        ".mjsx",
    ) || str_ends_with(filename, ".tsx") || str_ends_with(filename, ".ctsx") || str_ends_with(
        filename,
        ".mtsx",
    );
    proof {
        reveal_strlit(".jsx");
        reveal_strlit(".cjsx");
        reveal_strlit(".mjsx");
        reveal_strlit(".tsx");
        reveal_strlit(".ctsx");
        reveal_strlit(".mtsx");
        assert(".jsx"@ =~= seq!['.', 'j', 's', 'x']);
        assert(".cjsx"@ =~= seq!['.', 'c', 'j', 's', 'x']);
        assert(".mjsx"@ =~= seq!['.', 'm', 'j', 's', 'x']);
        assert(".tsx"@ =~= seq!['.', 't', 's', 'x']);
        assert(".ctsx"@ =~= seq!['.', 'c', 't', 's', 'x']);
        assert(".mtsx"@ =~= seq!['.', 'm', 't', 's', 'x']);
    }
    r
}

/// True when the filename's extension selects TypeScript syntax.
pub fn filename_is_typescript(filename: &str) -> (r: bool)
    ensures
        r == spec_is_typescript_filename(filename@),
{
    let r = str_ends_with(filename, ".ts") || str_ends_with(filename, ".cts") || str_ends_with(
        filename,
        ".mts",
    ) || str_ends_with(filename, ".tsx") || str_ends_with(filename, ".ctsx") || str_ends_with(
        filename,
        ".mtsx",
    );
    proof {
        reveal_strlit(".ts");
        reveal_strlit(".cts");
        reveal_strlit(".mts");
        reveal_strlit(".tsx");
        reveal_strlit(".ctsx");
        reveal_strlit(".mtsx");
        assert(".ts"@ =~= seq!['.', 't', 's']);
        assert(".cts"@ =~= seq!['.', 'c', 't', 's']);
        assert(".mts"@ =~= seq!['.', 'm', 't', 's']);
        assert(".tsx"@ =~= seq!['.', 't', 's', 'x']);
        assert(".ctsx"@ =~= seq!['.', 'c', 't', 's', 'x']);
        assert(".mtsx"@ =~= seq!['.', 'm', 't', 's', 'x']);
    }
    r
}

/// True when the filename's extension forces the CommonJS module kind.
pub fn filename_is_explicitly_cjs(filename: &str) -> (r: bool)
    ensures
        r == spec_is_explicitly_cjs_filename(filename@),
{
    let r = str_ends_with(filename, ".cjs") || str_ends_with(filename, ".cjsx") || str_ends_with(
        filename,
        ".cts",
    ) || str_ends_with(filename, ".ctsx");
    proof {
        reveal_strlit(".cjs");
        reveal_strlit(".cjsx");
        reveal_strlit(".cts");
        reveal_strlit(".ctsx");
        assert(".cjs"@ =~= seq!['.', 'c', 'j', 's']);
        assert(".cjsx"@ =~= seq!['.', 'c', 'j', 's', 'x']);
        assert(".cts"@ =~= seq!['.', 'c', 't', 's']);
        assert(".ctsx"@ =~= seq!['.', 'c', 't', 's', 'x']);
    }
    r
}

/// True when the filename's extension forces the ES module kind.
pub fn filename_is_explicitly_esm(filename: &str) -> (r: bool)
    ensures
        r == spec_is_explicitly_esm_filename(filename@),
{
    let r = str_ends_with(filename, ".mjs") || str_ends_with(filename, ".mjsx") || str_ends_with(
        filename,
        ".mts",
    ) || str_ends_with(filename, ".mtsx");
    proof {
        reveal_strlit(".mjs");
        reveal_strlit(".mjsx");
        reveal_strlit(".mts");
        reveal_strlit(".mtsx");
        assert(".mjs"@ =~= seq!['.', 'm', 'j', 's']);
        assert(".mjsx"@ =~= seq!['.', 'm', 'j', 's', 'x']);
        assert(".mts"@ =~= seq!['.', 'm', 't', 's']);
        assert(".mtsx"@ =~= seq!['.', 'm', 't', 's', 'x']);
    }
    r
}

} // verus!
