//! What every configuration accepted by validation satisfies.
//!
//! Validation reports the first violated rule in a fixed order. Read the
//! other way round, a configuration it accepts is unambiguous: every album
//! selects something, directory lists are never empty, no rule targets an
//! undeclared album, and no album or track is targeted twice.

use crate::config::{
    album_outcome, album_rules_violation, albums_outcome, group_rules_outcome, groups_outcome,
    handles_of, handles_violation, names_outcome, rule_outcome, target_names, validation,
    AlbumModel, AlbumRuleModel, LibraryBuildSpecModel, RawAlbumModel, RawLibraryBuildSpecModel,
    RawTrackRuleGroupModel, RawTrackRuleModel, TrackRuleGroupModel, TrackRuleModel,
    TrackTargetModel,
};
use crate::config::LibraryBuildSpec;
use crate::config_schema::{decode_document, parsed_as, LibraryBuildSpecError};
use crate::toml_input::TomlNode;
use vstd::prelude::*;
use vstd::utf8::{decode_utf8, encode_utf8, encode_utf8_decode_utf8};

verus! {

/// The album selects something, and a configured directory list is neither
/// empty nor holds an empty spelling.
pub open spec fn album_well_formed(album: AlbumModel) -> bool {
    &&& album.name is Some || album.artist is Some || album.directories is Some
    &&& album.directories matches Some(d) ==> {
        &&& d.len() > 0
        &&& forall|i: int| 0 <= i < d.len() ==> (#[trigger] d[i]).len() > 0
    }
}

/// Every album handle the album rules list, rule after rule.
pub open spec fn rule_handles(rules: Seq<AlbumRuleModel>) -> Seq<Seq<char>>
    decreases rules.len(),
{
    if rules.len() == 0 {
        Seq::empty()
    } else {
        rules[0].album_handles + rule_handles(rules.drop_first())
    }
}

/// The (album, track) pairs one list of names targets.
pub open spec fn named_pairs(handle: Seq<char>, names: Seq<Seq<char>>) -> Seq<(Seq<char>, Seq<char>)> {
    names.map_values(|n: Seq<char>| (handle, n))
}

/// The (album, track) pairs the rules of one group target, rule after rule.
pub open spec fn rules_pairs(handle: Seq<char>, rules: Seq<TrackRuleModel>) -> Seq<
    (Seq<char>, Seq<char>),
>
    decreases rules.len(),
{
    if rules.len() == 0 {
        Seq::empty()
    } else {
        named_pairs(handle, target_names(rules[0].target)) + rules_pairs(handle, rules.drop_first())
    }
}

/// The (album, track) pairs all track rule groups target, group after group.
pub open spec fn groups_pairs(groups: Seq<TrackRuleGroupModel>) -> Seq<(Seq<char>, Seq<char>)>
    decreases groups.len(),
{
    if groups.len() == 0 {
        Seq::empty()
    } else {
        rules_pairs(groups[0].album_handle, groups[0].rules) + groups_pairs(groups.drop_first())
    }
}

/// A group names a declared album and holds at least one rule, and every
/// `tracks` list among its rules is non-empty.
pub open spec fn group_well_formed(group: TrackRuleGroupModel, declared: Seq<Seq<char>>) -> bool {
    &&& declared.contains(group.album_handle)
    &&& group.rules.len() > 0
    &&& forall|k: int|
        0 <= k < group.rules.len() ==> ((#[trigger] group.rules[k]).target matches TrackTargetModel::Tracks(
            ts,
        ) ==> ts.len() > 0)
}

/// The rules of a validated configuration leave nothing ambiguous.
pub open spec fn rules_unambiguous(spec: LibraryBuildSpecModel) -> bool {
    &&& forall|i: int|
        0 <= i < spec.album_rules.len() ==> (#[trigger] spec.album_rules[i]).album_handles.len() > 0
    &&& forall|h: Seq<char>|
        #[trigger] rule_handles(spec.album_rules).contains(h) ==> handles_of(spec.albums).contains(h)
    &&& rule_handles(spec.album_rules).no_duplicates()
    &&& forall|i: int|
        0 <= i < spec.track_rules.len() ==> group_well_formed(
            #[trigger] spec.track_rules[i],
            handles_of(spec.albums),
        )
    &&& groups_pairs(spec.track_rules).no_duplicates()
}

proof fn lemma_push_keeps_no_duplicates<A>(s: Seq<A>, x: A)
    requires
        s.no_duplicates(),
        !s.contains(x),
    ensures
        s.push(x).no_duplicates(),
{
    assert forall|i: int, j: int|
        0 <= i < s.push(x).len() && 0 <= j < s.push(x).len() && i != j implies s.push(x)[i] != s.push(
        x,
    )[j] by {
        if i == s.len() {
            assert(s[j] == s.push(x)[j]);
        } else if j == s.len() {
            assert(s[i] == s.push(x)[i]);
        }
    }
}

proof fn lemma_concat_contains<A>(a: Seq<A>, b: Seq<A>, x: A)
    requires
        (a + b).contains(x),
    ensures
        a.contains(x) || b.contains(x),
{
    let i = choose|i: int| 0 <= i < (a + b).len() && (a + b)[i] == x;
    if i < a.len() {
        assert(a[i] == x);
    } else {
        assert(b[i - a.len()] == x);
    }
}

proof fn lemma_encoding_nonempty(text: Seq<char>)
    requires
        text.len() > 0,
    ensures
        encode_utf8(text).len() > 0,
{
    encode_utf8_decode_utf8(text);
    if encode_utf8(text).len() == 0 {
        assert(encode_utf8(text) =~= Seq::<u8>::empty());
        assert(decode_utf8(Seq::<u8>::empty()) =~= Seq::<char>::empty());
    }
}

proof fn lemma_first_empty_none(entries: Seq<Seq<char>>)
    requires
        crate::config::first_empty(entries) is None,
    ensures
        forall|i: int| 0 <= i < entries.len() ==> (#[trigger] entries[i]).len() > 0,
    decreases entries.len(),
{
    if entries.len() > 0 {
        lemma_first_empty_none(entries.drop_first());
        assert forall|i: int| 0 <= i < entries.len() implies (#[trigger] entries[i]).len() > 0 by {
            if i > 0 {
                assert(entries[i] == entries.drop_first()[i - 1]);
            }
        }
    }
}

proof fn lemma_album_accepted(handle: Seq<char>, raw: RawAlbumModel)
    requires
        album_outcome(handle, raw) is Ok,
    ensures
        album_well_formed(album_outcome(handle, raw)->Ok_0),
{
    let album = album_outcome(handle, raw)->Ok_0;
    match (raw.directory, raw.directories) {
        (Some(d), None) => {
            lemma_encoding_nonempty(d);
            assert(album.directories->Some_0[0] == encode_utf8(d));
        },
        (None, Some(ds)) => {
            lemma_first_empty_none(ds);
            let encoded = ds.map_values(|d: Seq<char>| encode_utf8(d));
            assert forall|i: int| 0 <= i < encoded.len() implies (#[trigger] encoded[i]).len() > 0 by {
                lemma_encoding_nonempty(ds[i]);
            }
        },
        _ => {},
    }
}

proof fn lemma_albums_accepted(albums: Seq<(Seq<char>, RawAlbumModel)>)
    requires
        albums_outcome(albums) is Ok,
    ensures
        albums_outcome(albums)->Ok_0.len() == albums.len(),
        forall|i: int|
            0 <= i < albums.len() ==> (#[trigger] albums_outcome(albums)->Ok_0[i]).0 == albums[i].0
                && album_well_formed(albums_outcome(albums)->Ok_0[i].1),
    decreases albums.len(),
{
    if albums.len() > 0 {
        let rest = albums.drop_first();
        lemma_album_accepted(albums[0].0, albums[0].1);
        lemma_albums_accepted(rest);
        let out = albums_outcome(albums)->Ok_0;
        let head = album_outcome(albums[0].0, albums[0].1)->Ok_0;
        assert(out == seq![(albums[0].0, head)] + albums_outcome(rest)->Ok_0);
        assert forall|i: int| 0 <= i < albums.len() implies (#[trigger] out[i]).0 == albums[i].0
            && album_well_formed(out[i].1) by {
            if i > 0 {
                assert(out[i] == albums_outcome(rest)->Ok_0[i - 1]);
                assert(rest[i - 1] == albums[i]);
            }
        }
    }
}

/// Every album a validated configuration declares selects something, and
/// none holds an empty directory list or an empty directory spelling; the
/// albums keep their declaration order.
pub proof fn validated_albums_are_well_formed(raw: RawLibraryBuildSpecModel)
    requires
        validation(raw) is Ok,
    ensures
        validation(raw)->Ok_0.albums.len() == raw.albums.len(),
        forall|i: int|
            0 <= i < raw.albums.len() ==> (#[trigger] validation(raw)->Ok_0.albums[i]).0
                == raw.albums[i].0 && album_well_formed(validation(raw)->Ok_0.albums[i].1),
{
    lemma_albums_accepted(raw.albums);
}

proof fn lemma_handles_accepted(
    handles: Seq<Seq<char>>,
    declared: Seq<Seq<char>>,
    claimed: Seq<Seq<char>>,
)
    requires
        handles_violation(handles, declared, claimed) is None,
        claimed.no_duplicates(),
    ensures
        forall|i: int| 0 <= i < handles.len() ==> declared.contains(#[trigger] handles[i]),
        (claimed + handles).no_duplicates(),
    decreases handles.len(),
{
    if handles.len() > 0 {
        let h0 = handles[0];
        let rest = handles.drop_first();
        lemma_push_keeps_no_duplicates(claimed, h0);
        lemma_handles_accepted(rest, declared, claimed.push(h0));
        assert(claimed.push(h0) + rest =~= claimed + handles);
        assert forall|i: int| 0 <= i < handles.len() implies declared.contains(#[trigger] handles[i]) by {
            if i > 0 {
                assert(handles[i] == rest[i - 1]);
            }
        }
    } else {
        assert(claimed + handles =~= claimed);
    }
}

proof fn lemma_album_rules_accepted(
    rules: Seq<AlbumRuleModel>,
    declared: Seq<Seq<char>>,
    claimed: Seq<Seq<char>>,
)
    requires
        album_rules_violation(rules, declared, claimed) is None,
        claimed.no_duplicates(),
    ensures
        forall|i: int| 0 <= i < rules.len() ==> (#[trigger] rules[i]).album_handles.len() > 0,
        forall|h: Seq<char>| #[trigger] rule_handles(rules).contains(h) ==> declared.contains(h),
        (claimed + rule_handles(rules)).no_duplicates(),
    decreases rules.len(),
{
    if rules.len() == 0 {
        assert(claimed + rule_handles(rules) =~= claimed);
    } else {
        let first = rules[0].album_handles;
        let rest = rules.drop_first();
        lemma_handles_accepted(first, declared, claimed);
        lemma_album_rules_accepted(rest, declared, claimed + first);
        assert((claimed + first) + rule_handles(rest) =~= claimed + rule_handles(rules));
        assert forall|i: int| 0 <= i < rules.len() implies (#[trigger] rules[i]).album_handles.len()
            > 0 by {
            if i > 0 {
                assert(rules[i] == rest[i - 1]);
            }
        }
        assert forall|h: Seq<char>| #[trigger] rule_handles(rules).contains(h) implies declared.contains(
            h,
        ) by {
            lemma_concat_contains(first, rule_handles(rest), h);
            if first.contains(h) {
                let k = choose|k: int| 0 <= k < first.len() && first[k] == h;
                assert(declared.contains(first[k]));
            }
        }
    }
}

proof fn lemma_names_accepted(
    handle: Seq<char>,
    names: Seq<Seq<char>>,
    claimed: Seq<(Seq<char>, Seq<char>)>,
)
    requires
        names_outcome(handle, names, claimed) is Ok,
        claimed.no_duplicates(),
    ensures
        names_outcome(handle, names, claimed)->Ok_0 == claimed + named_pairs(handle, names),
        (claimed + named_pairs(handle, names)).no_duplicates(),
    decreases names.len(),
{
    if names.len() == 0 {
        assert(claimed + named_pairs(handle, names) =~= claimed);
    } else {
        let pair = (handle, names[0]);
        let rest = names.drop_first();
        lemma_push_keeps_no_duplicates(claimed, pair);
        lemma_names_accepted(handle, rest, claimed.push(pair));
        assert(claimed.push(pair) + named_pairs(handle, rest) =~= claimed + named_pairs(handle, names));
    }
}

proof fn lemma_group_rules_accepted(
    handle: Seq<char>,
    rules: Seq<RawTrackRuleModel>,
    claimed: Seq<(Seq<char>, Seq<char>)>,
)
    requires
        group_rules_outcome(handle, rules, claimed) is Ok,
        claimed.no_duplicates(),
    ensures
        group_rules_outcome(handle, rules, claimed)->Ok_0.0.len() == rules.len(),
        forall|k: int|
            0 <= k < rules.len() ==> ((#[trigger] group_rules_outcome(handle, rules, claimed)->Ok_0.0[k]).target matches TrackTargetModel::Tracks(
                ts,
            ) ==> ts.len() > 0),
        group_rules_outcome(handle, rules, claimed)->Ok_0.1 == claimed + rules_pairs(
            handle,
            group_rules_outcome(handle, rules, claimed)->Ok_0.0,
        ),
        (claimed + rules_pairs(handle, group_rules_outcome(handle, rules, claimed)->Ok_0.0)).no_duplicates(),
    decreases rules.len(),
{
    let out = group_rules_outcome(handle, rules, claimed)->Ok_0;
    if rules.len() == 0 {
        assert(claimed + rules_pairs(handle, out.0) =~= claimed);
    } else {
        let rule = rule_outcome(handle, rules[0])->Ok_0;
        let names = target_names(rule.target);
        lemma_names_accepted(handle, names, claimed);
        let grown = claimed + named_pairs(handle, names);
        let rest = rules.drop_first();
        lemma_group_rules_accepted(handle, rest, grown);
        let rest_out = group_rules_outcome(handle, rest, grown)->Ok_0;
        assert(out.0 == seq![rule] + rest_out.0);
        assert((seq![rule] + rest_out.0).drop_first() =~= rest_out.0);
        assert(grown + rules_pairs(handle, rest_out.0) =~= claimed + rules_pairs(handle, out.0));
        assert forall|k: int|
            0 <= k < rules.len() implies ((#[trigger] out.0[k]).target matches TrackTargetModel::Tracks(
            ts,
        ) ==> ts.len() > 0) by {
            if k > 0 {
                assert(out.0[k] == rest_out.0[k - 1]);
            }
        }
    }
}

proof fn lemma_groups_accepted(
    groups: Seq<RawTrackRuleGroupModel>,
    declared: Seq<Seq<char>>,
    claimed: Seq<(Seq<char>, Seq<char>)>,
)
    requires
        groups_outcome(groups, declared, claimed) is Ok,
        claimed.no_duplicates(),
    ensures
        groups_outcome(groups, declared, claimed)->Ok_0.len() == groups.len(),
        forall|i: int|
            0 <= i < groups.len() ==> group_well_formed(
                #[trigger] groups_outcome(groups, declared, claimed)->Ok_0[i],
                declared,
            ),
        (claimed + groups_pairs(groups_outcome(groups, declared, claimed)->Ok_0)).no_duplicates(),
    decreases groups.len(),
{
    let out = groups_outcome(groups, declared, claimed)->Ok_0;
    if groups.len() == 0 {
        assert(claimed + groups_pairs(out) =~= claimed);
    } else {
        let handle = groups[0].album_handle;
        lemma_group_rules_accepted(handle, groups[0].rules, claimed);
        let (rules, grown) = group_rules_outcome(handle, groups[0].rules, claimed)->Ok_0;
        let rest = groups.drop_first();
        lemma_groups_accepted(rest, declared, grown);
        let rest_out = groups_outcome(rest, declared, grown)->Ok_0;
        let head = TrackRuleGroupModel { album_handle: handle, rules };
        assert(out == seq![head] + rest_out);
        assert((seq![head] + rest_out).drop_first() =~= rest_out);
        assert(grown + groups_pairs(rest_out) =~= claimed + groups_pairs(out));
        assert forall|i: int| 0 <= i < groups.len() implies group_well_formed(
            #[trigger] out[i],
            declared,
        ) by {
            if i > 0 {
                assert(out[i] == rest_out[i - 1]);
            }
        }
    }
}

/// A validated configuration is unambiguous: every album rule lists at least
/// one declared album, and no album is targeted twice by album rules; every
/// track rule group names a declared album and holds at least one rule, no
/// `tracks` list is empty, and no track of an album is targeted twice.
pub proof fn validated_rules_are_unambiguous(raw: RawLibraryBuildSpecModel)
    requires
        validation(raw) is Ok,
    ensures
        rules_unambiguous(validation(raw)->Ok_0),
{
    let spec = validation(raw)->Ok_0;
    let declared = handles_of(spec.albums);
    assert(Seq::<Seq<char>>::empty().no_duplicates());
    assert(Seq::<(Seq<char>, Seq<char>)>::empty().no_duplicates());
    lemma_album_rules_accepted(raw.album_rules, declared, Seq::empty());
    assert(Seq::<Seq<char>>::empty() + rule_handles(raw.album_rules) =~= rule_handles(raw.album_rules));
    lemma_groups_accepted(raw.track_rules, declared, Seq::empty());
    assert(Seq::<(Seq<char>, Seq<char>)>::empty() + groups_pairs(spec.track_rules) =~= groups_pairs(
        spec.track_rules,
    ));
}

/// Every configuration that parsing accepts is unambiguous and its albums
/// are well formed.
pub proof fn parsed_specs_are_well_formed(
    r: Result<LibraryBuildSpec, LibraryBuildSpecError>,
    entries: Seq<(Seq<char>, TomlNode)>,
)
    requires
        parsed_as(r, entries),
        r is Ok,
    ensures
        rules_unambiguous(r->Ok_0@),
        forall|i: int|
            0 <= i < r->Ok_0@.albums.len() ==> album_well_formed(#[trigger] r->Ok_0@.albums[i].1),
{
    let raw = decode_document(entries)->Ok_0;
    validated_rules_are_unambiguous(raw);
    validated_albums_are_well_formed(raw);
}

} // verus!
