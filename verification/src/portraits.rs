//! Officer portraits: where their image files live, and the prompt that asks
//! the image service for one.

use vstd::prelude::*;
use crate::game::OfficerGender;
use crate::image::{narrow_channels, narrowed_channel};
use crate::officer_edit::OfficerEditDraft;
use crate::settings::BAILIAN_DEFAULT_IMAGE_MODEL;
use crate::text::{
    chars_of, dec, join_strings, joined_with, owned, push_str, replace_all, replaced, string_from_range, trim,
    trimmed, u64_to_string,
};

verus! {

/// The prompt template; `[人名]` stands for the name and `[身份描述]` for the
/// identity description.
pub const OFFICER_PORTRAIT_PROMPT_TEMPLATE: &'static str = "A portrait of [人名], [身份描述], in Three Kingdoms historical strategy game character illustration style,\nsemi-realistic anime aesthetic, dramatic cinematic lighting, rim light,\ndark atmospheric background, highly detailed digital painting, masterpiece";

/// The size of a generated portrait.
pub const OFFICER_PORTRAIT_SIZE: &'static str = "576*768";

/// The longest biography, in characters, that goes into a prompt.
pub const PROMPT_BIOGRAPHY_LIMIT: usize = 260;

/// Whether `c` may appear in an officer identifier used as a file name.
pub open spec fn portrait_id_char(c: char) -> bool {
    ('a' <= c && c <= 'z') || ('A' <= c && c <= 'Z') || ('0' <= c && c <= '9') || c == '_' || c == '-'
}

/// Whether `id` can name a portrait file: non-empty, ASCII letters, digits,
/// `_` and `-` only.
pub open spec fn valid_portrait_id(id: Seq<char>) -> bool {
    id.len() > 0 && forall|i: int| 0 <= i < id.len() ==> portrait_id_char(#[trigger] id[i])
}

/// The message for an identifier that cannot name a file.
pub open spec fn invalid_portrait_id_message(id: Seq<char>) -> Seq<char> {
    "非法武将 ID，无法作为肖像文件名: "@ + id
}

/// Accepts an officer identifier that can name a portrait file.
pub fn validate_officer_portrait_id(officer_id: &str) -> (r: Result<(), String>)
    ensures
        match r {
            Ok(_) => valid_portrait_id(officer_id@),
            Err(e) => !valid_portrait_id(officer_id@) && e@ == invalid_portrait_id_message(officer_id@),
        },
{
    let v = chars_of(officer_id);
    let mut ok = v.len() > 0;
    let mut i: usize = 0;
    while i < v.len()
        invariant
            v@ == officer_id@,
            i <= v.len(),
            ok == (v@.len() > 0 && forall|k: int| 0 <= k < i ==> portrait_id_char(#[trigger] v@[k])),
        decreases v.len() - i,
    {
        let c = v[i];
        let good = ('a' <= c && c <= 'z') || ('A' <= c && c <= 'Z') || ('0' <= c && c <= '9') || c == '_' || c == '-';
        if !good {
            ok = false;
        }
        i = i + 1;
    }
    if ok {
        Ok(())
    } else {
        let mut e = owned("非法武将 ID，无法作为肖像文件名: ");
        push_str(&mut e, officer_id);
        Err(e)
    }
}

/// A path separator on one of the platforms the game runs on.
pub open spec fn is_sep(c: char) -> bool {
    c == '/' || c == '\\'
}

/// `s` begins with a drive prefix such as `C:`.
pub open spec fn drive_prefix(s: Seq<char>) -> bool {
    s.len() >= 2 && s[1] == ':' && (('a' <= s[0] && s[0] <= 'z') || ('A' <= s[0] && s[0] <= 'Z'))
}

/// `name` is a relative path on every platform: it starts with no separator
/// (no root, no network or device prefix) and with no drive prefix.
pub open spec fn relative_name(name: Seq<char>) -> bool {
    (name.len() == 0 || !is_sep(name[0])) && !drive_prefix(name)
}

/// `name` is one ordinary path component: a relative, non-empty name without
/// separators that is neither `.` nor `..`.
pub open spec fn normal_component(name: Seq<char>) -> bool {
    &&& name.len() > 0
    &&& relative_name(name)
    &&& forall|i: int| 0 <= i < name.len() ==> !is_sep(#[trigger] name[i])
    &&& name != seq!['.']
    &&& name != seq!['.', '.']
}

/// `d` may start a verbatim path (`\\?\...`), which joining normalises.
pub open spec fn verbatim_start(d: Seq<char>) -> bool {
    d.len() >= 3 && d[0] == '\\' && d[1] == '\\' && d[2] == '?'
}

/// After `dir`, joining adds no separator on some platform: `dir` ends in a
/// separator, or is a bare drive such as `C:`.
pub open spec fn no_sep_needed(dir: Seq<char>) -> bool {
    is_sep(dir.last()) || (dir.len() == 2 && drive_prefix(dir))
}

/// `r` is `name` joined onto `dir` as `Path::join` joins a relative name onto
/// a path that is not verbatim: `name` alone after an empty `dir`, else
/// `dir`, the platform's separator and `name`, or `dir` and `name` where the
/// platform needs no separator.
pub open spec fn joined(r: Seq<char>, dir: Seq<char>, name: Seq<char>) -> bool {
    if dir.len() == 0 {
        r == name
    } else {
        ||| r == dir + seq!['/'] + name
        ||| r == dir + seq!['\\'] + name
        ||| (no_sep_needed(dir) && r == dir + name)
    }
}

/// `p` ends with `suffix`.
pub open spec fn ends_with(p: Seq<char>, suffix: Seq<char>) -> bool {
    p.len() >= suffix.len() && p.subrange(p.len() - suffix.len(), p.len() as int) == suffix
}

/// Joins a name onto a path with `std::path::Path::join` (as a string). The
/// contract claims what std's documentation of `PathBuf::push` gives: a
/// relative name is appended to a path that is not verbatim, with a
/// separator where the path does not end in one (`/` on Unix, `\\` on
/// Windows, none after a bare drive); an ordinary component ends the result
/// whatever the path. What a verbatim path becomes when `..`, `.` or several
/// components are joined onto it (Windows normalises it) is left unsaid.
#[verifier::external_body]
pub(crate) fn join_path(dir: &str, name: &str) -> (r: String)
    ensures
        !verbatim_start(dir@) && relative_name(name@) ==> joined(r@, dir@, name@),
        normal_component(name@) ==> ends_with(r@, name@),
{
    std::path::Path::new(dir).join(name).to_string_lossy().into_owned()
}

/// Joining a name that starts with neither a separator nor `?` onto a path
/// that cannot start a verbatim path gives one that cannot either.
pub proof fn lemma_join_stays_plain(r: Seq<char>, dir: Seq<char>, name: Seq<char>)
    requires
        !verbatim_start(dir),
        joined(r, dir, name),
        name.len() > 0,
        !is_sep(name[0]),
        name[0] != '?',
    ensures
        !verbatim_start(r),
{
    if dir.len() > 0 {
        if r == dir + seq!['/'] + name {
            assert(r[0] == dir[0]);
            if dir.len() >= 2 { assert(r[1] == dir[1]); } else { assert(r[1] == '/'); }
            if dir.len() >= 3 { assert(r[2] == dir[2]); }
        } else if r == dir + seq!['\\'] + name {
            assert(r[0] == dir[0]);
            if dir.len() >= 2 { assert(r[1] == dir[1]); }
            if dir.len() >= 3 { assert(r[2] == dir[2]); } else if dir.len() == 2 { assert(r[2] == '\\'); } else { assert(r[2] == name[0]); }
        } else {
            assert(r == dir + name);
            assert(r[0] == dir[0]);
            if dir.len() >= 2 { assert(r[1] == dir[1]); } else { assert(r[1] == name[0]); }
            if dir.len() >= 3 { assert(r[2] == dir[2]); } else if dir.len() == 2 { assert(r[2] == name[0]); }
        }
    }
}

/// The file name of an officer's portrait.
pub open spec fn portrait_file_name(id: Seq<char>) -> Seq<char> {
    id + ".png"@
}

/// `p` is the portrait file of officer `id` under `data_dir`: it ends with
/// `<id>.png`, and where `data_dir` cannot start a verbatim path it is
/// `data_dir` joined with `portraits`, `officers` and `<id>.png`.
pub open spec fn portrait_path_of(p: Seq<char>, data_dir: Seq<char>, id: Seq<char>) -> bool {
    &&& ends_with(p, portrait_file_name(id))
    &&& !verbatim_start(data_dir) ==> exists|a: Seq<char>, b: Seq<char>|
        #[trigger] joined(a, data_dir, "portraits"@) && joined(b, a, "officers"@) && #[trigger] joined(p, b, portrait_file_name(id))
}

/// The portrait file of officer `officer_id` under `data_dir`:
/// `portraits/officers/<id>.png`, for an identifier that can name a file.
pub fn officer_portrait_path_in_data_dir(data_dir: &str, officer_id: &str) -> (r: Result<String, String>)
    ensures
        match r {
            Ok(p) => valid_portrait_id(officer_id@) && portrait_path_of(p@, data_dir@, officer_id@),
            Err(e) => !valid_portrait_id(officer_id@) && e@ == invalid_portrait_id_message(officer_id@),
        },
{
    match validate_officer_portrait_id(officer_id) {
        Ok(_) => {},
        Err(e) => return Err(e),
    }
    proof {
        reveal_strlit("portraits");
        reveal_strlit("officers");
        reveal_strlit(".png");
    }
    let portraits = join_path(data_dir, "portraits");
    let officers = join_path(portraits.as_str(), "officers");
    let mut file = owned(officer_id);
    push_str(&mut file, ".png");
    let ghost f = portrait_file_name(officer_id@);
    proof {
        assert(file@ == f);
        assert(f[0] == officer_id@[0]);
        assert(portrait_id_char(officer_id@[0]));
        if officer_id@.len() >= 2 {
            assert(f[1] == officer_id@[1]);
            assert(portrait_id_char(officer_id@[1]));
        } else {
            assert(f[1] == '.');
        }
        assert forall|i: int| 0 <= i < f.len() implies !is_sep(#[trigger] f[i]) by {
            if i < officer_id@.len() {
                assert(f[i] == officer_id@[i]);
                assert(portrait_id_char(officer_id@[i]));
            } else {
                assert(f[i] == ".png"@[i - officer_id@.len()]);
            }
        }
        assert(f.len() >= 5);
        assert(f != seq!['.']);
        assert(f != seq!['.', '.']);
    }
    let p = join_path(officers.as_str(), file.as_str());
    proof {
        if !verbatim_start(data_dir@) {
            lemma_join_stays_plain(portraits@, data_dir@, "portraits"@);
            lemma_join_stays_plain(officers@, portraits@, "officers"@);
            assert(joined(p@, officers@, f));
        }
    }
    Ok(p)
}

/// The word for the officer's gender in a prompt.
pub open spec fn gender_prompt_label(g: OfficerGender) -> Seq<char> {
    match g {
        OfficerGender::Male => "male"@,
        OfficerGender::Female => "female"@,
    }
}

/// The word for the officer's gender in a prompt.
pub fn officer_gender_prompt_label(gender: &OfficerGender) -> (s: &'static str)
    ensures
        s@ == gender_prompt_label(*gender),
{
    match gender {
        OfficerGender::Male => "male",
        OfficerGender::Female => "female",
    }
}

/// A `label: value` detail for a field that is not blank.
pub open spec fn prompt_detail(label: Seq<char>, value: Seq<char>) -> Seq<Seq<char>> {
    if trimmed(value).len() > 0 {
        seq![label + ": "@ + trimmed(value)]
    } else {
        Seq::empty()
    }
}

/// Appends `label: value` when the value is not blank.
pub fn push_prompt_detail(parts: &mut Vec<String>, label: &str, value: &str)
    ensures
        final(parts)@.map_values(|t: String| t@) == old(parts)@.map_values(|t: String| t@) + prompt_detail(label@, value@),
{
    let v = trim(value);
    let ghost before = parts@;
    if v.as_str().unicode_len() > 0 {
        let mut d = owned(label);
        push_str(&mut d, ": ");
        push_str(&mut d, v.as_str());
        parts.push(d);
        assert(parts@.map_values(|t: String| t@) =~= before.map_values(|t: String| t@) + prompt_detail(label@, value@));
    } else {
        assert(parts@.map_values(|t: String| t@) =~= before.map_values(|t: String| t@) + prompt_detail(label@, value@));
    }
}

/// The first `max` characters of `v`, followed by `...` when some were cut.
pub open spec fn truncated_text(v: Seq<char>, max: nat) -> Seq<char> {
    if v.len() > max {
        v.take(max as int) + "..."@
    } else {
        v
    }
}

/// The text cut to at most `max_chars` characters, marked with `...` when cut.
pub fn truncate_prompt_text(value: &str, max_chars: usize) -> (s: String)
    ensures
        s@ == truncated_text(value@, max_chars as nat),
{
    let v = chars_of(value);
    if v.len() > max_chars {
        let mut s = string_from_range(&v, 0, max_chars);
        push_str(&mut s, "...");
        s
    } else {
        string_from_range(&v, 0, v.len())
    }
}

/// The parts of the identity description of the officer of draft `d`.
pub open spec fn identity_parts(d: OfficerEditDraft) -> Seq<Seq<char>> {
    seq![gender_prompt_label(d.gender) + " officer of the late Han and Three Kingdoms era"@]
        + prompt_detail("courtesy name"@, d.courtesy_name@)
        + prompt_detail("native place"@, d.native_place@)
        + if trimmed(d.tags@).len() > 0 {
            seq!["historical tags "@ + trimmed(d.tags@)]
        } else {
            Seq::empty()
        }
}

/// Who the officer is, in words for the image service.
pub open spec fn identity_description(d: OfficerEditDraft) -> Seq<char> {
    joined_with(identity_parts(d), ", "@)
}

/// Who the officer of `draft` is, in words for the image service.
pub fn officer_identity_description(draft: &OfficerEditDraft) -> (s: String)
    ensures
        s@ == identity_description(*draft),
{
    let mut parts: Vec<String> = Vec::new();
    let mut first = owned(officer_gender_prompt_label(&draft.gender));
    push_str(&mut first, " officer of the late Han and Three Kingdoms era");
    parts.push(first);
    assert(parts@.map_values(|t: String| t@) =~= seq![gender_prompt_label(draft.gender)
        + " officer of the late Han and Three Kingdoms era"@]);
    push_prompt_detail(&mut parts, "courtesy name", draft.courtesy_name.as_str());
    push_prompt_detail(&mut parts, "native place", draft.native_place.as_str());
    let tags = trim(draft.tags.as_str());
    let ghost before = parts@;
    if tags.as_str().unicode_len() > 0 {
        let mut t = owned("historical tags ");
        push_str(&mut t, tags.as_str());
        parts.push(t);
        assert(parts@.map_values(|t: String| t@) =~= before.map_values(|t: String| t@) + seq![
            "historical tags "@ + trimmed(draft.tags@),
        ]);
    } else {
        assert(parts@.map_values(|t: String| t@) =~= before.map_values(|t: String| t@) + Seq::<Seq<char>>::empty());
    }
    assert(parts@.map_values(|t: String| t@) =~= identity_parts(*draft));
    join_strings(&parts, ", ")
}

/// The name in a prompt: the trimmed name, or the identifier when it is blank.
pub open spec fn prompt_name(d: OfficerEditDraft) -> Seq<char> {
    if trimmed(d.name@).len() == 0 {
        d.id@
    } else {
        trimmed(d.name@)
    }
}

/// The abilities line of a prompt.
pub open spec fn abilities_text(d: OfficerEditDraft) -> Seq<char> {
    "Abilities: leadership "@ + dec(d.leadership as nat) + ", strength "@ + dec(d.strength as nat)
        + ", intelligence "@ + dec(d.intelligence as nat) + ", politics "@ + dec(d.politics as nat)
        + ", charm "@ + dec(d.charm as nat)
}

/// The character reference details of a prompt.
pub open spec fn detail_parts(d: OfficerEditDraft) -> Seq<Seq<char>> {
    seq!["Name: "@ + prompt_name(d), "Gender: "@ + gender_prompt_label(d.gender), abilities_text(d)]
        + prompt_detail("Courtesy name"@, d.courtesy_name@)
        + prompt_detail("Native place"@, d.native_place@)
        + prompt_detail("Birth year"@, d.birth_year@)
        + prompt_detail("Death year"@, d.death_year@)
        + prompt_detail("Tags"@, d.tags@)
        + prompt_detail("Biography"@, truncated_text(trimmed(d.biography@), PROMPT_BIOGRAPHY_LIMIT as nat))
}

/// The prompt for a portrait of the officer of draft `d`.
pub open spec fn portrait_prompt(d: OfficerEditDraft) -> Seq<char> {
    replaced(
        replaced(OFFICER_PORTRAIT_PROMPT_TEMPLATE@, "[人名]"@, prompt_name(d)),
        "[身份描述]"@,
        identity_description(d),
    ) + "\n\nCharacter reference: "@ + joined_with(detail_parts(d), "; "@) + "."@
}

fn push_number(s: &mut String, n: u8)
    ensures
        final(s)@ == old(s)@ + dec(n as nat),
{
    let t = u64_to_string(n as u64);
    push_str(s, t.as_str());
}

/// The prompt that asks for a portrait of the officer of `draft`.
pub fn build_officer_portrait_prompt(draft: &OfficerEditDraft) -> (s: String)
    ensures
        s@ == portrait_prompt(*draft),
{
    let trimmed_name = trim(draft.name.as_str());
    let name = if trimmed_name.as_str().unicode_len() == 0 {
        owned(draft.id.as_str())
    } else {
        trimmed_name
    };
    let identity = officer_identity_description(draft);
    proof {
        reveal_strlit("[人名]");
        reveal_strlit("[身份描述]");
    }
    let with_name = replace_all(OFFICER_PORTRAIT_PROMPT_TEMPLATE, "[人名]", name.as_str());
    let base = replace_all(with_name.as_str(), "[身份描述]", identity.as_str());
    let mut details: Vec<String> = Vec::new();
    let mut name_line = owned("Name: ");
    push_str(&mut name_line, name.as_str());
    details.push(name_line);
    let mut gender_line = owned("Gender: ");
    push_str(&mut gender_line, officer_gender_prompt_label(&draft.gender));
    details.push(gender_line);
    let mut abilities = owned("Abilities: leadership ");
    push_number(&mut abilities, draft.leadership);
    push_str(&mut abilities, ", strength ");
    push_number(&mut abilities, draft.strength);
    push_str(&mut abilities, ", intelligence ");
    push_number(&mut abilities, draft.intelligence);
    push_str(&mut abilities, ", politics ");
    push_number(&mut abilities, draft.politics);
    push_str(&mut abilities, ", charm ");
    push_number(&mut abilities, draft.charm);
    details.push(abilities);
    assert(details@.map_values(|t: String| t@) =~= seq![
        "Name: "@ + prompt_name(*draft),
        "Gender: "@ + gender_prompt_label(draft.gender),
        abilities_text(*draft),
    ]);
    push_prompt_detail(&mut details, "Courtesy name", draft.courtesy_name.as_str());
    push_prompt_detail(&mut details, "Native place", draft.native_place.as_str());
    push_prompt_detail(&mut details, "Birth year", draft.birth_year.as_str());
    push_prompt_detail(&mut details, "Death year", draft.death_year.as_str());
    push_prompt_detail(&mut details, "Tags", draft.tags.as_str());
    let bio = trim(draft.biography.as_str());
    let biography = truncate_prompt_text(bio.as_str(), PROMPT_BIOGRAPHY_LIMIT);
    push_prompt_detail(&mut details, "Biography", biography.as_str());
    assert(details@.map_values(|t: String| t@) =~= detail_parts(*draft));
    let joined = join_strings(&details, "; ");
    let mut out = base;
    push_str(&mut out, "\n\nCharacter reference: ");
    push_str(&mut out, joined.as_str());
    push_str(&mut out, ".");
    out
}

/// The image model to use: the trimmed name, or the default model when blank.
pub fn normalized_model_name(model_name: &str) -> (s: String)
    ensures
        s@ == if trimmed(model_name@).len() == 0 {
            BAILIAN_DEFAULT_IMAGE_MODEL@
        } else {
            trimmed(model_name@)
        },
{
    let t = trim(model_name);
    if t.as_str().unicode_len() == 0 {
        owned(BAILIAN_DEFAULT_IMAGE_MODEL)
    } else {
        t
    }
}

/// One piece of content of a generated message.
#[derive(Clone, Debug)]
pub struct ImageContent {
    pub image: Option<String>,
}

/// One choice of a finished image task.
#[derive(Clone, Debug)]
pub struct ImageChoice {
    pub content: Vec<ImageContent>,
}

/// The output block of an image task reply.
#[derive(Clone, Debug)]
pub struct ImageTaskOutput {
    pub task_id: Option<String>,
    pub task_status: Option<String>,
    pub choices: Vec<ImageChoice>,
}

/// What the image service answers about a task.
#[derive(Clone, Debug)]
pub struct ImageTaskResponse {
    pub code: Option<String>,
    pub message: Option<String>,
    pub output: Option<ImageTaskOutput>,
}

/// The images of the choices' contents, in order, where there is one.
pub open spec fn output_images(choices: Seq<ImageChoice>) -> Seq<Seq<char>>
    decreases choices.len(),
{
    if choices.len() == 0 {
        Seq::empty()
    } else {
        output_images(choices.drop_last()) + content_images(choices.last().content@)
    }
}

/// The images of the contents, in order, where there is one.
pub open spec fn content_images(cs: Seq<ImageContent>) -> Seq<Seq<char>>
    decreases cs.len(),
{
    if cs.len() == 0 {
        Seq::empty()
    } else {
        content_images(cs.drop_last()) + match cs.last().image {
            Some(u) => seq![u@],
            None => Seq::empty(),
        }
    }
}

/// The first image in a reply, if the reply has output and it has one.
pub open spec fn first_image(r: ImageTaskResponse) -> Option<Seq<char>> {
    match r.output {
        Some(o) => if output_images(o.choices@).len() > 0 {
            Some(output_images(o.choices@)[0])
        } else {
            None
        },
        None => None,
    }
}

fn first_content_image(cs: &Vec<ImageContent>) -> (r: Option<String>)
    ensures
        match r {
            Some(u) => content_images(cs@).len() > 0 && u@ == content_images(cs@)[0],
            None => content_images(cs@).len() == 0,
        },
{
    let mut i: usize = 0;
    while i < cs.len()
        invariant
            i <= cs.len(),
            content_images(cs@.take(i as int)).len() == 0,
        decreases cs.len() - i,
    {
        assert(cs@.take(i as int + 1).drop_last() =~= cs@.take(i as int));
        match &cs[i] {
            ImageContent { image: Some(u) } => {
                proof {
                    lemma_content_images_prefix(cs@, i as int + 1);
                }
                return Some(owned(u.as_str()));
            },
            _ => {},
        }
        i = i + 1;
    }
    assert(cs@.take(cs@.len() as int) =~= cs@);
    None
}

proof fn lemma_content_images_prefix(cs: Seq<ImageContent>, k: int)
    requires
        0 <= k <= cs.len(),
    ensures
        content_images(cs.take(k)).len() <= content_images(cs).len(),
        forall|j: int| 0 <= j < content_images(cs.take(k)).len() ==> content_images(cs)[j] == content_images(cs.take(k))[j],
    decreases cs.len() - k,
{
    if k < cs.len() {
        lemma_content_images_prefix(cs, k + 1);
        assert(cs.take(k + 1).drop_last() =~= cs.take(k));
    } else {
        assert(cs.take(k) =~= cs);
    }
}

proof fn lemma_output_images_prefix(cs: Seq<ImageChoice>, k: int)
    requires
        0 <= k <= cs.len(),
    ensures
        output_images(cs.take(k)).len() <= output_images(cs).len(),
        forall|j: int| 0 <= j < output_images(cs.take(k)).len() ==> output_images(cs)[j] == output_images(cs.take(k))[j],
    decreases cs.len() - k,
{
    if k < cs.len() {
        lemma_output_images_prefix(cs, k + 1);
        assert(cs.take(k + 1).drop_last() =~= cs.take(k));
    } else {
        assert(cs.take(k) =~= cs);
    }
}

/// The first image of a finished task's reply.
pub fn first_output_image_url(response: &ImageTaskResponse) -> (r: Option<String>)
    ensures
        match r {
            Some(u) => first_image(*response) == Some(u@),
            None => first_image(*response) is None,
        },
{
    match &response.output {
        None => None,
        Some(output) => {
            let mut i: usize = 0;
            while i < output.choices.len()
                invariant
                    response.output == Some(*output),
                    i <= output.choices.len(),
                    output_images(output.choices@.take(i as int)).len() == 0,
                decreases output.choices.len() - i,
            {
                let ghost pre = output.choices@.take(i as int);
                assert(output.choices@.take(i as int + 1).drop_last() =~= pre);
                assert(output.choices@.take(i as int + 1).last() == output.choices@[i as int]);
                match first_content_image(&output.choices[i].content) {
                    Some(u) => {
                        proof {
                            let t = output.choices@.take(i as int + 1);
                            assert(output_images(t) == output_images(pre) + content_images(output.choices@[i as int].content@));
                            assert(output_images(t)[0] == content_images(output.choices@[i as int].content@)[0]);
                            lemma_output_images_prefix(output.choices@, i as int + 1);
                            assert(output_images(t).len() > 0);
                            assert(output_images(output.choices@).len() > 0);
                            assert(output_images(output.choices@)[0] == u@);
                            assert(response.output == Some(*output));
                        }
                        return Some(u);
                    },
                    None => {},
                }
                i = i + 1;
            }
            assert(output.choices@.take(output.choices@.len() as int) =~= output.choices@);
            None
        },
    }
}

/// The error to report for a failed task: the reply's message, else its
/// code, else the task status, else `fallback`.
pub open spec fn task_error_text(r: ImageTaskResponse, fallback: Seq<char>) -> Seq<char> {
    match r.message {
        Some(m) => m@,
        None => match r.code {
            Some(c) => c@,
            None => match r.output {
                Some(o) => match o.task_status {
                    Some(s) => s@,
                    None => fallback,
                },
                None => fallback,
            },
        },
    }
}

/// The error to report for a failed task.
pub fn image_task_error(response: &ImageTaskResponse, fallback: &str) -> (s: String)
    ensures
        s@ == task_error_text(*response, fallback@),
{
    match &response.message {
        Some(m) => owned(m.as_str()),
        None => match &response.code {
            Some(c) => owned(c.as_str()),
            None => match &response.output {
                Some(o) => match &o.task_status {
                    Some(st) => owned(st.as_str()),
                    None => owned(fallback),
                },
                None => owned(fallback),
            },
        },
    }
}

/// The message for a 16-bit portrait buffer whose length is not a whole
/// number of pixels.
pub open spec fn portrait_rgba16_length_message(len: nat) -> Seq<char> {
    "16-bit RGBA 肖像缓冲区长度必须能被 8 整除，当前为 "@ + dec(len)
}

/// A decoded 16-bit RGBA portrait narrowed to 8 bits per channel; refused
/// when its length is not a multiple of 8 bytes.
pub fn portrait_rgba16_to_rgba8(bytes: &Vec<u8>) -> (r: Result<Vec<u8>, String>)
    ensures
        match r {
            Ok(out) => bytes@.len() % 8 == 0 && out@.len() == bytes@.len() / 2 && forall|k: int|
                0 <= k < out@.len() ==> out@[k] == narrowed_channel(bytes@, k),
            Err(e) => bytes@.len() % 8 != 0 && e@ == portrait_rgba16_length_message(bytes@.len()),
        },
{
    if bytes.len() % 8 != 0 {
        let mut e = owned("16-bit RGBA 肖像缓冲区长度必须能被 8 整除，当前为 ");
        let n = u64_to_string(bytes.len() as u64);
        push_str(&mut e, n.as_str());
        return Err(e);
    }
    Ok(narrow_channels(bytes))
}

} // verus!
