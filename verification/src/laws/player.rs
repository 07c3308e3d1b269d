//! What the player promises.

use vstd::prelude::*;
use crate::player::{
    Action, App, AppEvent, CheckStep, ChildState, Key, KeyCode, KeyKind, Signal, StartStep, Turn,
    TurnEnd,
};
use crate::station::{
    categories, law_categories, law_categories_in_order, law_members, members, texts, Station,
};

verus! {

/// How many of the first `n` stations name this category.
pub open spec fn named_before(stations: Seq<Station>, category: Seq<char>, n: int) -> nat
    decreases n,
{
    if n <= 0 {
        0
    } else {
        named_before(stations, category, n - 1) + if stations[n - 1].category@ == category {
            1nat
        } else {
            0
        }
    }
}

/// Station `i` of the table is the `k`-th of this category, counted from zero.
pub open spec fn is_nth(stations: Seq<Station>, category: Seq<char>, k: int, i: int) -> bool {
    &&& 0 <= i < stations.len()
    &&& stations[i].category@ == category
    &&& named_before(stations, category, i) == k
}

/// The name of the category under the cursor.
pub open spec fn open_category<A>(app: App<A>) -> Seq<char> {
    app.categories@[app.category_cursor as int]@
}

/// How many stations the category under the cursor has.
pub open spec fn open_len<A>(app: App<A>) -> nat {
    named_before(app.stations@, open_category(app), app.stations@.len() as int)
}

/// The same title, or none in both.
pub open spec fn same_title(a: Option<String>, b: Option<String>) -> bool {
    &&& a is Some <==> b is Some
    &&& a is Some ==> a.unwrap()@ == b.unwrap()@
}

/// The same stations and categories.
pub open spec fn same_table<A>(a: App<A>, b: App<A>) -> bool {
    &&& a.stations@ == b.stations@
    &&& a.categories@.len() == b.categories@.len()
    &&& forall|k: int|
        0 <= k < a.categories@.len() ==> (#[trigger] a.categories@[k])@ == b.categories@[k]@
    &&& a.cat_counts@ == b.cat_counts@
}

/// The cursor stands in the same place.
pub open spec fn same_cursor<A>(a: App<A>, b: App<A>) -> bool {
    a.category_cursor == b.category_cursor && a.station_cursor == b.station_cursor
}

/// The same stream, of the same station, in the same condition.
pub open spec fn same_stream<A>(a: App<A>, b: App<A>) -> bool {
    &&& a.current_idx == b.current_idx
    &&& a.paused == b.paused
    &&& a.audio == b.audio
    &&& a.reconnect_attempts == b.reconnect_attempts
}

/// The same title and waveform.
pub open spec fn same_signs<A>(a: App<A>, b: App<A>) -> bool {
    &&& a.wave_top@ == b.wave_top@
    &&& a.wave_bot@ == b.wave_bot@
    &&& same_title(a.metadata, b.metadata)
}

/// The same volume and size of the terminal.
pub open spec fn same_setting<A>(a: App<A>, b: App<A>) -> bool {
    a.volume == b.volume && a.term_size == b.term_size
}

/// Nothing differs but perhaps the cursor.
pub open spec fn same_but_cursor<A>(a: App<A>, b: App<A>) -> bool {
    same_table(a, b) && same_stream(a, b) && same_signs(a, b) && same_setting(a, b)
}

/// Nothing differs.
pub open spec fn unchanged<A>(a: App<A>, b: App<A>) -> bool {
    same_but_cursor(a, b) && same_cursor(a, b)
}

/// There is no stream, nor anything known of one.
pub open spec fn no_stream<A>(app: App<A>) -> bool {
    &&& app.audio is None
    &&& !app.paused
    &&& app.reconnect_attempts == 0
    &&& app.wave_top@.len() == 0
    &&& app.wave_bot@.len() == 0
    &&& app.metadata is None
}

proof fn lemma_named_grows(stations: Seq<Station>, category: Seq<char>, i: int, j: int)
    requires
        0 <= i < j <= stations.len(),
    ensures
        named_before(stations, category, i) <= named_before(stations, category, j),
        stations[i].category@ == category ==> named_before(stations, category, i) < named_before(
            stations,
            category,
            j,
        ),
    decreases j,
{
    if i < j - 1 {
        lemma_named_grows(stations, category, i, j - 1);
    }
}

proof fn lemma_named_prefix(a: Seq<Station>, b: Seq<Station>, category: Seq<char>, n: int)
    requires
        n <= a.len(),
        n <= b.len(),
        forall|i: int| 0 <= i < n ==> #[trigger] a[i] == b[i],
    ensures
        named_before(a, category, n) == named_before(b, category, n),
    decreases n,
{
    if n > 0 {
        lemma_named_prefix(a, b, category, n - 1);
        assert(a[n - 1] == b[n - 1]);
    }
}

/// The members of a category are its stations, counted in the order of the
/// table.
pub proof fn law_members_are_counted(stations: Seq<Station>, category: Seq<char>)
    requires
        stations.len() <= usize::MAX,
    ensures
        members(stations, category).len() == named_before(
            stations,
            category,
            stations.len() as int,
        ),
        forall|k: int|
            0 <= k < members(stations, category).len() ==> is_nth(
                stations,
                category,
                k,
                #[trigger] members(stations, category)[k] as int,
            ),
    decreases stations.len(),
{
    if stations.len() > 0 {
        let front = stations.drop_last();
        let now = members(stations, category);
        let before = members(front, category);
        law_members_are_counted(front, category);
        lemma_named_prefix(stations, front, category, front.len() as int);
        assert forall|k: int| 0 <= k < now.len() implies is_nth(
            stations,
            category,
            k,
            #[trigger] now[k] as int,
        ) by {
            if k < before.len() {
                assert(now[k] == before[k]);
                assert(is_nth(front, category, k, before[k] as int));
                lemma_named_prefix(stations, front, category, before[k] as int);
            }
        }
    }
}

/// No two stations have the same place in a category.
pub proof fn law_nth_is_unique(
    stations: Seq<Station>,
    category: Seq<char>,
    k: int,
    i: int,
    j: int,
)
    requires
        is_nth(stations, category, k, i),
        is_nth(stations, category, k, j),
    ensures
        i == j,
{
    if i < j {
        lemma_named_grows(stations, category, i, j);
    } else if j < i {
        lemma_named_grows(stations, category, j, i);
    }
}

proof fn lemma_open<A>(app: App<A>)
    requires
        app.wf(),
    ensures
        app.category_cursor < app.categories@.len(),
        app.categories@.len() == categories(app.stations@).len(),
        open_category(app) == categories(app.stations@)[app.category_cursor as int],
        open_len(app) == app.expanded@.len(),
        0 < open_len(app),
        app.expanded@ == members(app.stations@, open_category(app)),
        forall|k: int|
            0 <= k < open_len(app) ==> is_nth(
                app.stations@,
                open_category(app),
                k,
                #[trigger] app.expanded@[k] as int,
            ),
{
    let names = texts(app.categories@);
    assert(names[app.category_cursor as int] == open_category(app));
    law_members_are_counted(app.stations@, open_category(app));
    law_categories_in_order(app.stations@);
}

proof fn lemma_same_table<A>(a: App<A>, b: App<A>)
    requires
        a.wf(),
        b.wf(),
        a.stations@ == b.stations@,
    ensures
        same_table(a, b),
{
    assert(texts(a.categories@).len() == a.categories@.len());
    assert(texts(b.categories@).len() == b.categories@.len());
    assert forall|k: int| 0 <= k < a.categories@.len() implies (#[trigger] a.categories@[k])@
        == b.categories@[k]@ by {
        assert(texts(a.categories@)[k] == a.categories@[k]@);
        assert(texts(b.categories@)[k] == b.categories@[k]@);
    }
    assert forall|k: int| 0 <= k < a.cat_counts@.len() implies #[trigger] a.cat_counts@[k]
        == b.cat_counts@[k] by {
        assert(a.categories@[k]@ == b.categories@[k]@);
    }
    assert(a.cat_counts@ =~= b.cat_counts@);
}

/// Category `k` of a list is first named before category `l`.
pub open spec fn named_earlier(
    stations: Seq<Station>,
    list: Seq<&'static str>,
    k: int,
    l: int,
) -> bool {
    exists|i: int, j: int|
        i < j && #[trigger] is_nth(stations, list[k]@, 0, i) && #[trigger] is_nth(
            stations,
            list[l]@,
            0,
            j,
        )
}

/// A list of the categories of some stations, in the order of the stations.
pub open spec fn lists_categories(stations: Seq<Station>, list: Seq<&'static str>) -> bool {
    &&& forall|i: int|
        0 <= i < stations.len() ==> on_list(list, (#[trigger] stations[i]).category@)
    &&& forall|k: int|
        0 <= k < list.len() ==> named_before(
            stations,
            (#[trigger] list[k])@,
            stations.len() as int,
        ) > 0
    &&& forall|k: int, l: int|
        0 <= k < l < list.len() ==> #[trigger] named_earlier(stations, list, k, l)
}

/// A text is on a list.
pub open spec fn on_list(list: Seq<&'static str>, text: Seq<char>) -> bool {
    exists|k: int| 0 <= k < list.len() && #[trigger] list[k]@ == text
}

/// The categories of some stations are those that the stations name, in the
/// order in which they are first named; so none is listed twice.
pub proof fn law_listed_categories(stations: Seq<Station>, list: Seq<&'static str>)
    requires
        stations.len() <= usize::MAX,
        texts(list) == categories(stations),
    ensures
        lists_categories(stations, list),
{
    let names = texts(list);
    law_categories(stations);
    law_categories_in_order(stations);
    assert forall|i: int| 0 <= i < stations.len() implies on_list(
        list,
        (#[trigger] stations[i]).category@,
    ) by {
        assert(names.contains(stations[i].category@));
        let k = choose|k: int| 0 <= k < names.len() && names[k] == stations[i].category@;
        assert(list[k]@ == stations[i].category@);
    }
    assert forall|k: int| 0 <= k < list.len() implies named_before(
        stations,
        (#[trigger] list[k])@,
        stations.len() as int,
    ) > 0 by {
        assert(names[k] == list[k]@);
        law_members_are_counted(stations, names[k]);
    }
    assert forall|k: int, l: int| 0 <= k < l < list.len() implies #[trigger] named_earlier(
        stations,
        list,
        k,
        l,
    ) by {
        assert(names[k] == list[k]@ && names[l] == list[l]@);
        law_members_are_counted(stations, names[k]);
        law_members_are_counted(stations, names[l]);
        let i = members(stations, names[k])[0] as int;
        let j = members(stations, names[l])[0] as int;
        assert(is_nth(stations, list[k]@, 0, i) && is_nth(stations, list[l]@, 0, j));
    }
}

/// No category is on such a list twice.
pub proof fn law_no_category_twice(
    stations: Seq<Station>,
    list: Seq<&'static str>,
    k: int,
    l: int,
)
    requires
        lists_categories(stations, list),
        0 <= k < l < list.len(),
    ensures
        list[k]@ != list[l]@,
{
    assert(named_earlier(stations, list, k, l));
    let (i, j) = choose|i: int, j: int|
        i < j && #[trigger] is_nth(stations, list[k]@, 0, i) && #[trigger] is_nth(
            stations,
            list[l]@,
            0,
            j,
        );
    if list[k]@ == list[l]@ {
        law_nth_is_unique(stations, list[k]@, 0, i, j);
    }
}

/// The player lists the categories that its stations name, and with each the
/// number of its stations.
pub proof fn law_categories_of_the_player<A>(app: App<A>)
    requires
        app.wf(),
    ensures
        lists_categories(app.stations@, app.categories@),
        app.cat_counts@.len() == app.categories@.len(),
        forall|k: int|
            0 <= k < app.categories@.len() ==> #[trigger] app.cat_counts@[k] == named_before(
                app.stations@,
                app.categories@[k]@,
                app.stations@.len() as int,
            ),
{
    let table = app.stations@;
    law_listed_categories(table, app.categories@);
    assert forall|k: int| 0 <= k < app.categories@.len() implies #[trigger] app.cat_counts@[k]
        == named_before(table, app.categories@[k]@, table.len() as int) by {
        law_members_are_counted(table, app.categories@[k]@);
    }
}

/// A new player plays nothing, and its cursor stands on the first category.
pub proof fn law_new_player<A>(
    stations: Vec<Station>,
    term_size: Option<(u16, u16)>,
    volume: Option<u8>,
    app: App<A>,
)
    requires
        0 < stations@.len() <= i32::MAX,
        call_ensures(App::<A>::new, (stations, term_size, volume), app),
    ensures
        app.stations@ == stations@,
        lists_categories(stations@, app.categories@),
        app.category_cursor == 0 && app.station_cursor == -1,
        app.current_idx is None && no_stream(app),
        app.volume == volume,
        term_size is Some ==> app.term_size == term_size.unwrap(),
        term_size is None ==> app.term_size == (80u16, 24u16),
{
    law_categories_of_the_player(app);
}

/// Enter plays the station under the cursor, and no other: with the cursor on
/// the `k`-th station of a category its `k`-th station, with the cursor on the
/// category its first. Nothing else happens.
pub proof fn law_enter<A>(app: &mut App<A>, key: Key, action: Action<A>)
    requires
        app.wf(),
        key.code == KeyCode::Enter,
        key.kind != KeyKind::Release,
        call_ensures(App::<A>::handle_key, (app, key), action),
    ensures
        action matches Action::Play(i) && is_nth(
            old(app).stations@,
            open_category(*old(app)),
            if old(app).station_cursor == -1 {
                0
            } else {
                old(app).station_cursor as int
            },
            i as int,
        ),
        unchanged(*old(app), *final(app)),
{
    lemma_open(*old(app));
    lemma_same_table(*old(app), *final(app));
}

/// Within a category, different cursors play different stations.
pub proof fn law_enter_tells_stations_apart<A>(
    a: &mut App<A>,
    b: &mut App<A>,
    key: Key,
    from_a: Action<A>,
    from_b: Action<A>,
)
    requires
        a.wf() && b.wf(),
        a.stations@ == b.stations@,
        a.category_cursor == b.category_cursor,
        0 <= a.station_cursor < b.station_cursor,
        key.code == KeyCode::Enter,
        key.kind != KeyKind::Release,
        call_ensures(App::<A>::handle_key, (a, key), from_a),
        call_ensures(App::<A>::handle_key, (b, key), from_b),
    ensures
        from_a matches Action::Play(i) && from_b matches Action::Play(j) && i < j,
{
    lemma_same_table(*a, *b);
    lemma_open(*a);
    lemma_open(*b);
    law_members(a.stations@, open_category(*a));
}

/// Letting go of a key does nothing.
pub proof fn law_release<A>(app: &mut App<A>, key: Key, action: Action<A>)
    requires
        app.wf(),
        key.kind == KeyKind::Release,
        call_ensures(App::<A>::handle_key, (app, key), action),
    ensures
        action is Nothing,
        unchanged(*old(app), *final(app)),
{
    lemma_same_table(*old(app), *final(app));
}

/// The player is left by `q` and by control and `c`, and by nothing else.
pub proof fn law_quit<A>(app: &mut App<A>, key: Key, action: Action<A>)
    requires
        app.wf(),
        call_ensures(App::<A>::handle_key, (app, key), action),
    ensures
        action is Quit <==> key.kind != KeyKind::Release && (key.code == KeyCode::Char('q') || (
        key.code == KeyCode::Char('c') && key.modifiers == 2)),
        action is Quit ==> unchanged(*old(app), *final(app)),
{
    lemma_same_table(*old(app), *final(app));
}

/// Up goes to the station above, from the first station to its category, and
/// from a category to the one above, where there is one.
pub proof fn law_up<A>(app: &mut App<A>, key: Key, action: Action<A>)
    requires
        app.wf(),
        key.code == KeyCode::Up || key.code == KeyCode::Char('k'),
        key.kind != KeyKind::Release,
        call_ensures(App::<A>::handle_key, (app, key), action),
    ensures
        action is Nothing,
        same_but_cursor(*old(app), *final(app)),
        old(app).station_cursor >= 0 ==> final(app).station_cursor == old(app).station_cursor - 1
            && final(app).category_cursor == old(app).category_cursor,
        old(app).station_cursor == -1 ==> final(app).station_cursor == -1
            && final(app).category_cursor == (if old(app).category_cursor == 0 {
            0
        } else {
            old(app).category_cursor - 1
        }),
{
    lemma_same_table(*old(app), *final(app));
}

/// Down goes to the station below, and from the last station or from a
/// category to the next category. At the very end it stays.
pub proof fn law_down<A>(app: &mut App<A>, key: Key, action: Action<A>)
    requires
        app.wf(),
        key.code == KeyCode::Down || key.code == KeyCode::Char('j'),
        key.kind != KeyKind::Release,
        call_ensures(App::<A>::handle_key, (app, key), action),
    ensures
        action is Nothing,
        same_but_cursor(*old(app), *final(app)),
        0 <= old(app).station_cursor < open_len(*old(app)) - 1 ==> final(app).station_cursor == old(
            app,
        ).station_cursor + 1 && final(app).category_cursor == old(app).category_cursor,
        old(app).station_cursor == -1 || old(app).station_cursor == open_len(*old(app)) - 1 ==> (
        if old(app).category_cursor < old(app).categories@.len() - 1 {
            final(app).category_cursor == old(app).category_cursor + 1
                && final(app).station_cursor == -1
        } else {
            same_cursor(*old(app), *final(app))
        }),
{
    lemma_open(*old(app));
    lemma_same_table(*old(app), *final(app));
}

/// Tab goes through the stations of a category, and from the last one back to
/// the category.
pub proof fn law_tab<A>(app: &mut App<A>, key: Key, action: Action<A>)
    requires
        app.wf(),
        key.code == KeyCode::Tab,
        key.kind != KeyKind::Release,
        call_ensures(App::<A>::handle_key, (app, key), action),
    ensures
        action is Nothing,
        same_but_cursor(*old(app), *final(app)),
        final(app).category_cursor == old(app).category_cursor,
        final(app).station_cursor == (if old(app).station_cursor + 1 == open_len(*old(app)) {
            -1
        } else {
            old(app).station_cursor + 1
        }),
{
    lemma_open(*old(app));
    lemma_same_table(*old(app), *final(app));
}

/// `b` and the back tab put the cursor back on its category.
pub proof fn law_back<A>(app: &mut App<A>, key: Key, action: Action<A>)
    requires
        app.wf(),
        key.code == KeyCode::BackTab || key.code == KeyCode::Char('b'),
        key.kind != KeyKind::Release,
        call_ensures(App::<A>::handle_key, (app, key), action),
    ensures
        action is Nothing,
        same_but_cursor(*old(app), *final(app)),
        final(app).category_cursor == old(app).category_cursor,
        final(app).station_cursor == -1,
{
    lemma_same_table(*old(app), *final(app));
}

/// `s` hands over the stream to be stopped, and leaves a player that plays no
/// station. Cursor, volume and size stay.
pub proof fn law_stop<A>(app: &mut App<A>, key: Key, action: Action<A>)
    requires
        app.wf(),
        key.code == KeyCode::Char('s'),
        key.kind != KeyKind::Release,
        call_ensures(App::<A>::handle_key, (app, key), action),
    ensures
        action == Action::Halt(old(app).audio),
        no_stream(*final(app)) && final(app).current_idx is None,
        same_table(*old(app), *final(app)),
        same_cursor(*old(app), *final(app)),
        same_setting(*old(app), *final(app)),
{
    lemma_same_table(*old(app), *final(app));
}

/// `p` stops the process of a stream that is not paused and continues the one
/// that is; without a stream it does nothing.
pub proof fn law_pause<A>(app: &mut App<A>, key: Key, action: Action<A>)
    requires
        app.wf(),
        key.code == KeyCode::Char('p'),
        key.kind != KeyKind::Release,
        call_ensures(App::<A>::handle_key, (app, key), action),
    ensures
        old(app).audio is None ==> action is Nothing && unchanged(*old(app), *final(app)),
        old(app).audio is Some && !old(app).paused ==> action == Action::<A>::Send(Signal::Stop)
            && final(app).paused,
        old(app).audio is Some && old(app).paused ==> action == Action::<A>::Send(Signal::Continue)
            && !final(app).paused,
        final(app).current_idx == old(app).current_idx,
        final(app).audio == old(app).audio,
        final(app).reconnect_attempts == old(app).reconnect_attempts,
        same_table(*old(app), *final(app)),
        same_cursor(*old(app), *final(app)),
        same_signs(*old(app), *final(app)),
        same_setting(*old(app), *final(app)),
{
    lemma_same_table(*old(app), *final(app));
}

/// `+` and `=` raise the volume by five and `-` lowers it by five, from 50 if
/// it is not known, and within 0 to 100. The volume that is set is the one
/// that is noted.
pub proof fn law_volume_keys<A>(app: &mut App<A>, key: Key, action: Action<A>)
    requires
        app.wf(),
        key.code == KeyCode::Char('+') || key.code == KeyCode::Char('=') || key.code
            == KeyCode::Char('-'),
        key.kind != KeyKind::Release,
        call_ensures(App::<A>::handle_key, (app, key), action),
    ensures
        ({
            let from: int = if old(app).volume is Some {
                old(app).volume.unwrap() as int
            } else {
                50
            };
            let up = key.code != KeyCode::Char('-');
            &&& action matches Action::SetVolume(v) && final(app).volume == Some(v) && 0 <= v <= 100
                && (up && from <= 95 ==> v == from + 5) && (up && from > 95 ==> v == 100) && (!up
                && 5 <= from <= 105 ==> v == from - 5) && (!up && from < 5 ==> v == 0) && (!up
                && from > 105 ==> v == 100)
        }),
        final(app).term_size == old(app).term_size,
        same_table(*old(app), *final(app)),
        same_cursor(*old(app), *final(app)),
        same_stream(*old(app), *final(app)),
        same_signs(*old(app), *final(app)),
{
    lemma_same_table(*old(app), *final(app));
}

/// The volume changes by as much as was asked for, from 50 if it is not known,
/// and within 0 to 100.
pub proof fn law_adjust_volume<A>(app: &mut App<A>, delta: i32, volume: u8)
    requires
        app.wf(),
        call_ensures(App::<A>::adjust_volume, (app, delta), volume),
    ensures
        ({
            let wanted = delta + if old(app).volume is Some {
                old(app).volume.unwrap() as int
            } else {
                50
            };
            &&& 0 <= wanted <= 100 ==> volume == wanted
            &&& wanted < 0 ==> volume == 0
            &&& wanted > 100 ==> volume == 100
        }),
        final(app).volume == Some(volume),
        final(app).term_size == old(app).term_size,
        same_table(*old(app), *final(app)),
        same_cursor(*old(app), *final(app)),
        same_stream(*old(app), *final(app)),
        same_signs(*old(app), *final(app)),
{
    lemma_same_table(*old(app), *final(app));
}

/// Any other key does nothing.
pub proof fn law_other_keys<A>(app: &mut App<A>, key: Key, action: Action<A>)
    requires
        app.wf(),
        key.code == KeyCode::Other || (key.code matches KeyCode::Char(c) && c != 'q' && c != 'j'
            && c != 'k' && c != 'b' && c != 's' && c != 'p' && c != '+' && c != '=' && c != '-'
            && !(c == 'c' && key.modifiers == 2)),
        call_ensures(App::<A>::handle_key, (app, key), action),
    ensures
        action is Nothing,
        unchanged(*old(app), *final(app)),
{
    lemma_same_table(*old(app), *final(app));
}

/// A key that is an event does what the key does.
pub proof fn law_key_events<A>(
    a: &mut App<A>,
    b: &mut App<A>,
    key: Key,
    as_key: Action<A>,
    as_event: Action<A>,
)
    requires
        a.wf() && b.wf(),
        unchanged(*a, *b),
        call_ensures(App::<A>::handle_key, (a, key), as_key),
        call_ensures(App::<A>::handle_event, (b, AppEvent::Key(key)), as_event),
    ensures
        as_event == as_key,
        unchanged(*final(a), *final(b)),
{
    assert(a@ == b@);
    lemma_same_table(*final(a), *final(b));
}

/// A new size is noted, and everything is drawn anew.
pub proof fn law_resize<A>(app: &mut App<A>, columns: u16, rows: u16, action: Action<A>)
    requires
        app.wf(),
        call_ensures(App::<A>::handle_event, (app, AppEvent::Resize(columns, rows)), action),
    ensures
        action is ClearAll,
        final(app).term_size == (columns, rows),
        final(app).volume == old(app).volume,
        same_table(*old(app), *final(app)),
        same_cursor(*old(app), *final(app)),
        same_stream(*old(app), *final(app)),
        same_signs(*old(app), *final(app)),
{
    lemma_same_table(*old(app), *final(app));
}

/// A waveform is kept as it came: the upper row above, the lower below.
pub proof fn law_wave_event<A>(app: &mut App<A>, event: AppEvent, action: Action<A>)
    requires
        app.wf(),
        event is Wave,
        call_ensures(App::<A>::handle_event, (app, event), action),
    ensures
        action is Nothing,
        event matches AppEvent::Wave(frame) && final(app).wave_top@ == frame.top@
            && final(app).wave_bot@ == frame.bot@,
        same_title(old(app).metadata, final(app).metadata),
        same_table(*old(app), *final(app)),
        same_cursor(*old(app), *final(app)),
        same_stream(*old(app), *final(app)),
        same_setting(*old(app), *final(app)),
{
    lemma_same_table(*old(app), *final(app));
}

/// A title is kept as it came, and so is that there is none.
pub proof fn law_title_event<A>(
    app: &mut App<A>,
    title: Option<String>,
    action: Action<A>,
)
    requires
        app.wf(),
        call_ensures(App::<A>::handle_event, (app, AppEvent::Metadata(title)), action),
    ensures
        action is Nothing,
        same_title(title, final(app).metadata),
        final(app).wave_top@ == old(app).wave_top@,
        final(app).wave_bot@ == old(app).wave_bot@,
        same_table(*old(app), *final(app)),
        same_cursor(*old(app), *final(app)),
        same_stream(*old(app), *final(app)),
        same_setting(*old(app), *final(app)),
{
    lemma_same_table(*old(app), *final(app));
}

/// Other events change nothing: a stream that died is found by the next look
/// at it.
pub proof fn law_idle_events<A>(app: &mut App<A>, event: AppEvent, action: Action<A>)
    requires
        app.wf(),
        event is OtherInput || event is StreamDied || event is Tick,
        call_ensures(App::<A>::handle_event, (app, event), action),
    ensures
        action is Nothing,
        unchanged(*old(app), *final(app)),
{
    lemma_same_table(*old(app), *final(app));
}

/// A station that plays and is not paused is left alone. Otherwise the stream
/// is handed over to be stopped, nothing is left of it, and the address to
/// start is that of the station that was asked for, wherever the cursor is.
pub proof fn law_start<A>(
    app: &mut App<A>,
    idx: usize,
    child: ChildState,
    step: StartStep<A>,
)
    requires
        app.wf(),
        idx < app.stations@.len(),
        call_ensures(App::<A>::start_playback, (app, idx, child), step),
    ensures
        step is AlreadyPlaying <==> old(app).current_idx == Some(idx) && old(app).audio is Some
            && !old(app).paused && child != ChildState::Exited,
        step is AlreadyPlaying ==> unchanged(*old(app), *final(app)),
        step matches StartStep::Launch { old: stream, url } ==> stream == old(app).audio && url
            == old(app).stations@[idx as int].url && no_stream(*final(app))
            && final(app).current_idx == old(app).current_idx,
        same_table(*old(app), *final(app)),
        same_cursor(*old(app), *final(app)),
        same_setting(*old(app), *final(app)),
{
    lemma_same_table(*old(app), *final(app));
}

/// A stream that was started is the one that plays, for the station that was
/// asked for, with all attempts before it.
pub proof fn law_launched<A>(app: &mut App<A>, idx: usize, audio: A, done: ())
    requires
        app.wf(),
        idx < app.stations@.len(),
        call_ensures(App::<A>::launched, (app, idx, audio), done),
    ensures
        final(app).current_idx == Some(idx),
        final(app).audio == Some(audio),
        !final(app).paused,
        final(app).reconnect_attempts == 0,
        same_table(*old(app), *final(app)),
        same_cursor(*old(app), *final(app)),
        same_signs(*old(app), *final(app)),
        same_setting(*old(app), *final(app)),
{
    lemma_same_table(*old(app), *final(app));
}

/// A look at a stream that runs, or at none, changes nothing. A stream that
/// is over is handed over: it is started again with the address of the very
/// station that plays, three times at most, and after that given up for good,
/// so that nothing plays; one that belongs to no station is forgotten.
pub proof fn law_check<A>(app: &mut App<A>, child: ChildState, step: CheckStep<A>)
    requires
        app.wf(),
        call_ensures(App::<A>::check_playback, (app, child), step),
    ensures
        ({
            let over = old(app).audio is Some && child != ChildState::Running;
            let playing = old(app).current_idx;
            let stream = old(app).audio.unwrap();
            &&& !over ==> step is Nothing && unchanged(*old(app), *final(app))
            &&& over && playing is None ==> step == CheckStep::Forget(stream)
                && final(app).current_idx is None && final(app).reconnect_attempts == old(
                app,
            ).reconnect_attempts && final(app).paused == old(app).paused && same_signs(
                *old(app),
                *final(app),
            )
            &&& over && playing is Some && old(app).reconnect_attempts < 3 ==> (step matches
                CheckStep::Relaunch { dead, url } && dead == stream && url == old(
                app,
            ).stations@[playing.unwrap() as int].url) && final(app).current_idx == playing
                && final(app).reconnect_attempts == old(app).reconnect_attempts + 1
                && final(app).paused == old(app).paused && same_signs(*old(app), *final(app))
            &&& over && playing is Some && old(app).reconnect_attempts >= 3 ==> step
                == CheckStep::GiveUp(stream) && final(app).current_idx is None && no_stream(
                *final(app),
            )
            &&& over ==> final(app).audio is None
        }),
        same_table(*old(app), *final(app)),
        same_cursor(*old(app), *final(app)),
        same_setting(*old(app), *final(app)),
{
    lemma_same_table(*old(app), *final(app));
}

/// What a look at the stream asks for does not depend on the cursor.
pub proof fn law_check_ignores_the_cursor<A>(
    a: &mut App<A>,
    b: &mut App<A>,
    child: ChildState,
    from_a: CheckStep<A>,
    from_b: CheckStep<A>,
)
    requires
        a.wf() && b.wf(),
        same_but_cursor(*a, *b),
        call_ensures(App::<A>::check_playback, (a, child), from_a),
        call_ensures(App::<A>::check_playback, (b, child), from_b),
    ensures
        from_a == from_b,
        same_but_cursor(*final(a), *final(b)),
{
    lemma_same_table(*final(a), *final(b));
}

/// A stream that was started again plays for the same station, and counts as
/// one more attempt; where it could not be started, nothing plays.
pub proof fn law_relaunch<A>(app: &mut App<A>, audio: A, done: ())
    requires
        app.wf(),
        call_ensures(App::<A>::relaunched, (app, audio), done),
    ensures
        final(app).audio == Some(audio),
        final(app).current_idx == old(app).current_idx,
        final(app).paused == old(app).paused,
        final(app).reconnect_attempts == old(app).reconnect_attempts,
        same_table(*old(app), *final(app)),
        same_cursor(*old(app), *final(app)),
        same_signs(*old(app), *final(app)),
        same_setting(*old(app), *final(app)),
{
    lemma_same_table(*old(app), *final(app));
}

/// Where a stream could not be started again, no station plays.
pub proof fn law_relaunch_failed<A>(app: &mut App<A>, done: ())
    requires
        app.wf(),
        call_ensures(App::<A>::relaunch_failed, (app,), done),
    ensures
        final(app).current_idx is None,
        final(app).audio == old(app).audio,
        final(app).paused == old(app).paused,
        final(app).reconnect_attempts == old(app).reconnect_attempts,
        same_table(*old(app), *final(app)),
        same_cursor(*old(app), *final(app)),
        same_signs(*old(app), *final(app)),
        same_setting(*old(app), *final(app)),
{
    lemma_same_table(*old(app), *final(app));
}

/// Letting go of the stream hands it over and leaves nothing of it; the
/// station stays noted.
pub proof fn law_stop_playback<A>(app: &mut App<A>, audio: Option<A>)
    requires
        app.wf(),
        call_ensures(App::<A>::stop_playback, (app,), audio),
    ensures
        audio == old(app).audio,
        no_stream(*final(app)),
        final(app).current_idx == old(app).current_idx,
        same_table(*old(app), *final(app)),
        same_cursor(*old(app), *final(app)),
        same_setting(*old(app), *final(app)),
{
    lemma_same_table(*old(app), *final(app));
}

/// A turn in which anything asked to quit ends the player; otherwise the
/// screen is cleared if anything asked for that. A new turn asks for nothing,
/// and what was asked for once stays so.
pub proof fn law_turn<A>(
    fresh: Turn,
    turn: &mut Turn,
    action: Action<A>,
    done: (),
    seen: Turn,
    end: TurnEnd,
)
    requires
        call_ensures(Turn::new, (), fresh),
        call_ensures(Turn::note::<A>, (turn, &action), done),
        call_ensures(Turn::end, (&seen,), end),
    ensures
        !fresh.should_quit && !fresh.needs_full_clear,
        final(turn).should_quit <==> old(turn).should_quit || action is Quit,
        final(turn).needs_full_clear <==> old(turn).needs_full_clear || action is ClearAll,
        end is Quit <==> seen.should_quit,
        end matches TurnEnd::CheckAndDraw { clear } ==> clear == seen.needs_full_clear,
{
}

} // verus!
