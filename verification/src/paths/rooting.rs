//! Where things are looked for, whatever was said of where they are.

use crate::paths::spelling::{is_rooted, is_same_path, names_among, names_of};
use crate::paths::{
    at_home, cache_root, config_root, data_root, said_as, state_root, under, Overrides, Standard,
};
use crate::text::{begins, lemma_position, split_on};
use vstd::prelude::*;

verus! {

/// What was said on the command line comes before what the environment says, that before what the
/// platform says, and that before a directory of the project's own, under the one for configuration.
pub proof fn the_nearest_word_decides_where_things_are(
    flag: Option<String>,
    env: Overrides,
    dirs: Option<Standard>,
)
    ensures
        flag is Some ==> config_root(flag, env, dirs) == flag->0@,
        flag is None && env.config is Some ==> config_root(flag, env, dirs) == env.config->0@,
        flag is None && env.config is None && dirs is Some ==> config_root(flag, env, dirs)
            == dirs->0.config@,
        flag is None && env.config is None && dirs is None ==> config_root(flag, env, dirs)
            == ".neosh-config"@,
        env.data is Some ==> data_root(flag, env, dirs) == env.data->0@,
        env.data is None && dirs is Some ==> data_root(flag, env, dirs) == dirs->0.data@,
        env.data is None && dirs is None ==> data_root(flag, env, dirs) == under(
            config_root(flag, env, dirs),
            "data"@,
        ),
        env.state is Some ==> state_root(flag, env, dirs) == env.state->0@,
        env.state is None && dirs is Some && dirs->0.state is Some ==> state_root(flag, env, dirs)
            == dirs->0.state->0@,
        env.state is None && (dirs is None || dirs->0.state is None) ==> state_root(flag, env, dirs)
            == data_root(flag, env, dirs),
        env.cache is Some ==> cache_root(flag, env, dirs) == env.cache->0@,
        env.cache is None && dirs is Some ==> cache_root(flag, env, dirs) == dirs->0.cache@,
        env.cache is None && dirs is None ==> cache_root(flag, env, dirs) == under(
            config_root(flag, env, dirs),
            "cache"@,
        ),
{
}

/// A name in a directory is the directory, one slash, and the name.
pub proof fn a_name_goes_under_its_directory(dir: Seq<char>, leaf: Seq<char>)
    ensures
        dir.len() > 0 && dir.last() != '/' ==> under(dir, leaf) == dir + seq!['/'] + leaf,
        under(dir.push('/'), leaf) == dir + seq!['/'] + leaf,
        under(Seq::<char>::empty(), leaf) == leaf,
        dir.is_prefix_of(under(dir, leaf)),
        crate::text::ends(under(dir, leaf), leaf),
{
    assert(dir.push('/') + leaf =~= dir + seq!['/'] + leaf);
    assert(Seq::<char>::empty() + leaf =~= leaf);
    let u = under(dir, leaf);
    assert(u.subrange(0, dir.len() as int) =~= dir);
    assert(u.skip(u.len() - leaf.len()) =~= leaf);
}

/// A tilde that stands alone, or before a slash, stands for the home directory; any other path is
/// where it says.
pub proof fn a_tilde_stands_for_home(home: Seq<char>, rest: Seq<char>, path: Seq<char>)
    ensures
        at_home(seq!['~'], Some(home)) == home,
        at_home(seq!['~', '/'] + rest, Some(home)) == home + seq!['/'] + rest,
        at_home(path, None) == path,
        path.len() == 0 || path[0] != '~' ==> at_home(path, Some(home)) == path,
        path.len() > 1 && path[1] != '/' ==> at_home(path, Some(home)) == path,
{
    assert(seq!['~'].skip(1) =~= seq![]);
    assert(home + Seq::<char>::empty() =~= home);
    let p = seq!['~', '/'] + rest;
    assert(p.skip(1) =~= seq!['/'] + rest);
    assert(home + (seq!['/'] + rest) =~= home + seq!['/'] + rest);
}

/// A path in the home directory is said with a tilde; one that is not, however it begins, is said as
/// it stands.
pub proof fn a_path_at_home_is_said_with_a_tilde(home: Seq<char>, rest: Seq<char>, c: char)
    requires
        home.len() > 0,
    ensures
        said_as(home, Some(home)) == seq!['~'],
        said_as(home + seq!['/'] + rest, Some(home)) == seq!['~', '/'] + rest,
        c != '/' ==> said_as(home + seq![c] + rest, Some(home)) == home + seq![c] + rest,
        said_as(rest, None) == rest,
        !begins(rest, home) ==> said_as(rest, Some(home)) == rest,
{
    assert(home.take(home.len() as int) =~= home);
    assert(home.subrange(0, home.len() as int) =~= home);
    assert(home.skip(home.len() as int) =~= seq![]);
    assert(seq!['~'] + Seq::<char>::empty() =~= seq!['~']);
    let p = home + seq!['/'] + rest;
    assert(p.take(home.len() as int) =~= home);
    assert(p.subrange(0, home.len() as int) =~= home);
    assert(p[home.len() as int] == '/');
    assert(p.skip(home.len() as int) =~= seq!['/'] + rest);
    assert(seq!['~'] + (seq!['/'] + rest) =~= seq!['~', '/'] + rest);
    let q = home + seq![c] + rest;
    assert(q[home.len() as int] == c);
}

/// Two paths of one plain name each are the same only where the names are, and a path from the root
/// is never the same as one that is not.
pub proof fn other_names_are_other_paths(a: Seq<char>, b: Seq<char>)
    requires
        a.len() > 0 && b.len() > 0,
        forall|i: int| 0 <= i < a.len() ==> #[trigger] a[i] != '/',
        forall|i: int| 0 <= i < b.len() ==> #[trigger] b[i] != '/',
    ensures
        is_same_path(a, b) == (a == b),
        !is_same_path(seq!['/'] + a, a),
        is_rooted(seq!['/'] + a) && !is_rooted(a),
{
    lemma_position(a, '/', a.len() as int);
    lemma_position(b, '/', b.len() as int);
    assert(split_on(a, '/') =~= seq![a]);
    assert(split_on(b, '/') =~= seq![b]);
    let none = Seq::<Seq<char>>::empty();
    assert(seq![a].skip(1) =~= none);
    assert(seq![b].skip(1) =~= none);
    assert(names_among(none) =~= none);
    assert(names_of(a) =~= seq![a]);
    assert(names_of(b) =~= seq![b]);
    if names_of(a) == names_of(b) {
        assert(names_of(a)[0] == names_of(b)[0]);
    }
    let root = seq!['/'];
    if begins(a, root) {
        assert(a.take(1)[0] == root[0]);
    }
    if begins(b, root) {
        assert(b.take(1)[0] == root[0]);
    }
    assert((root + a).take(1) =~= root);
    assert((root + a).subrange(0, 1) =~= root);
}

/// Being the same path is an equivalence.
pub proof fn sameness_is_an_equivalence(a: Seq<char>, b: Seq<char>, c: Seq<char>)
    ensures
        is_same_path(a, a),
        is_same_path(a, b) == is_same_path(b, a),
        is_same_path(a, b) && is_same_path(b, c) ==> is_same_path(a, c),
{
}

} // verus!
