//! The game database used by the process detector: the games, and those of
//! them that can run on Linux, matched against processed executable paths.
use vstd::prelude::*;
use crate::process::path_processor::ProcessedPath;
use crate::text::{
    chars_eq, chars_of, contains_seq, copy_string, copy_strings, join_with, joined_contains, str_eq,
    string_views,
};

verus! {

/// One executable of a game.
pub struct ExecutableEntry {
    pub name: String,
    pub os: String,
    pub is_launcher: bool,
    pub arguments: Option<String>,
}

/// One game of the database.
pub struct GameEntry {
    pub id: String,
    pub name: String,
    pub executables: Vec<ExecutableEntry>,
    pub aliases: Vec<String>,
    pub hook: bool,
    pub overlay: bool,
}

/// The plain content of an executable entry.
pub struct ExecutableView {
    pub name: Seq<char>,
    pub os: Seq<char>,
    pub is_launcher: bool,
    pub arguments: Option<Seq<char>>,
}

/// The plain content of a game entry.
pub struct GameView {
    pub id: Seq<char>,
    pub name: Seq<char>,
    pub executables: Seq<ExecutableView>,
    pub aliases: Seq<Seq<char>>,
    pub hook: bool,
    pub overlay: bool,
}

/// The characters of an optional string.
pub open spec fn opt_chars(o: Option<String>) -> Option<Seq<char>> {
    match o {
        Some(s) => Some(s@),
        None => None,
    }
}

impl View for ExecutableEntry {
    type V = ExecutableView;

    open spec fn view(&self) -> ExecutableView {
        ExecutableView {
            name: self.name@,
            os: self.os@,
            is_launcher: self.is_launcher,
            arguments: opt_chars(self.arguments),
        }
    }
}

/// The views of a list of executables.
pub open spec fn exe_views(v: Seq<ExecutableEntry>) -> Seq<ExecutableView> {
    v.map_values(|e: ExecutableEntry| e@)
}

impl View for GameEntry {
    type V = GameView;

    open spec fn view(&self) -> GameView {
        GameView {
            id: self.id@,
            name: self.name@,
            executables: exe_views(self.executables@),
            aliases: string_views(self.aliases@),
            hook: self.hook,
            overlay: self.overlay,
        }
    }
}

/// The views of a list of games.
pub open spec fn game_views(v: Seq<GameEntry>) -> Seq<GameView> {
    v.map_values(|g: GameEntry| g@)
}

/// A copy of an optional string.
pub fn copy_opt_string(o: &Option<String>) -> (r: Option<String>)
    ensures
        opt_chars(r) == opt_chars(*o),
{
    match o {
        Some(s) => Some(copy_string(s)),
        None => None,
    }
}

impl ExecutableEntry {
    /// A copy of this executable entry.
    pub fn duplicate(&self) -> (r: Self)
        ensures
            r@ == self@,
    {
        ExecutableEntry {
            name: copy_string(&self.name),
            os: copy_string(&self.os),
            is_launcher: self.is_launcher,
            arguments: copy_opt_string(&self.arguments),
        }
    }

    /// Whether this executable is meant for Linux.
    pub fn is_linux(&self) -> (r: bool)
        ensures
            r == (self@.os == "linux"@),
    {
        str_eq(self.os.as_str(), "linux")
    }
}

/// A copy of a list of executable entries.
pub fn copy_executables(v: &Vec<ExecutableEntry>) -> (r: Vec<ExecutableEntry>)
    ensures
        exe_views(r@) == exe_views(v@),
{
    let mut r: Vec<ExecutableEntry> = Vec::new();
    let n = v.len();
    for i in 0..n
        invariant
            n == v@.len(),
            exe_views(r@) == exe_views(v@).take(i as int),
    {
        let e = v[i].duplicate();
        let ghost before = r@;
        r.push(e);
        assert(exe_views(r@) =~= exe_views(before).push(e@));
        assert(exe_views(v@).take(i + 1) =~= exe_views(v@).take(i as int).push(v@[i as int]@));
    }
    assert(exe_views(v@).take(n as int) =~= exe_views(v@));
    r
}

impl GameEntry {
    /// A copy of this game entry.
    pub fn duplicate(&self) -> (r: Self)
        ensures
            r@ == self@,
    {
        GameEntry {
            id: copy_string(&self.id),
            name: copy_string(&self.name),
            executables: copy_executables(&self.executables),
            aliases: copy_strings(&self.aliases),
            hook: self.hook,
            overlay: self.overlay,
        }
    }

    /// Whether one of the executables is meant for Linux.
    pub fn has_linux_executable(&self) -> (r: bool)
        ensures
            r == has_linux_exe(self@),
    {
        let n = self.executables.len();
        for i in 0..n
            invariant
                n == self.executables@.len(),
                forall|k: int| 0 <= k < i ==> self.executables@[k]@.os != "linux"@,
        {
            if self.executables[i].is_linux() {
                assert(self@.executables[i as int].os == "linux"@);
                return true;
            }
        }
        assert forall|k: int| 0 <= k < self@.executables.len() implies self@.executables[k].os != "linux"@ by {
            assert(self@.executables[k] == self.executables@[k]@);
        }
        false
    }
}

/// The game has an executable meant for Linux.
pub open spec fn has_linux_exe(g: GameView) -> bool {
    exists|i: int| 0 <= i < g.executables.len() && g.executables[i].os == "linux"@
}

/// The games that have an executable meant for Linux, in order.
pub open spec fn linux_games(gs: Seq<GameView>) -> Seq<GameView>
    decreases gs.len(),
{
    if gs.len() == 0 {
        gs
    } else if has_linux_exe(gs.last()) {
        linux_games(gs.drop_last()).push(gs.last())
    } else {
        linux_games(gs.drop_last())
    }
}

/// The executable name matches one of the path variants: a name that starts
/// with `>` must equal the first variant (without the `>`), any other name
/// must equal some variant.
pub open spec fn name_matches(name: Seq<char>, variants: Seq<Seq<char>>) -> bool {
    if name.len() > 0 && name[0] == '>' {
        variants.len() > 0 && variants[0] == name.skip(1)
    } else {
        variants.contains(name)
    }
}

/// The required arguments, if any, occur in the arguments joined by spaces.
pub open spec fn arguments_match(required: Option<Seq<char>>, args: Seq<Seq<char>>) -> bool {
    match required {
        None => true,
        Some(req) => contains_seq(join_with(args, seq![' ']), req),
    }
}

/// The required arguments are found wherever they stand in the process's
/// arguments joined by single spaces (at the start, in the middle or at the
/// end), and only there; with none required, any arguments do.
pub proof fn law_arguments_found_anywhere(required: Seq<char>, args: Seq<Seq<char>>, pos: int)
    ensures
        arguments_match(None, args),
        0 <= pos && pos + required.len() <= join_with(args, seq![' ']).len()
            && join_with(args, seq![' ']).subrange(pos, pos + required.len()) == required
            ==> arguments_match(Some(required), args),
        arguments_match(Some(required), args) ==> exists|i: int| 0 <= i
            && i + required.len() <= join_with(args, seq![' ']).len()
            && #[trigger] join_with(args, seq![' ']).subrange(i, i + required.len()) == required,
{
    let j = join_with(args, seq![' ']);
    if 0 <= pos && pos + required.len() <= j.len() && j.subrange(pos, pos + required.len()) == required {
        assert(crate::text::occurs_at(j, required, pos));
    }
    if arguments_match(Some(required), args) {
        let i = choose|i: int| crate::text::occurs_at(j, required, i);
        assert(j.subrange(i, i + required.len()) == required);
    }
}

/// Arguments joined by single spaces: one argument stands alone, and each
/// further argument follows the joined ones after one space.
pub proof fn law_arguments_join_with_spaces(args: Seq<Seq<char>>, next: Seq<char>)
    ensures
        join_with(seq![next], seq![' ']) == next,
        args.len() > 0 ==> join_with(args.push(next), seq![' ']) == join_with(args, seq![' ']) + seq![' '] + next,
{
    assert(args.push(next).drop_last() =~= args);
}

/// The executable matches the path variants and the process arguments.
pub open spec fn executable_matches(e: ExecutableView, variants: Seq<Seq<char>>, args: Seq<Seq<char>>) -> bool {
    name_matches(e.name, variants) && arguments_match(e.arguments, args)
}

/// A Linux, non-launcher executable of the game matches.
pub open spec fn linux_game_matches(g: GameView, variants: Seq<Seq<char>>, args: Seq<Seq<char>>) -> bool {
    exists|i: int|
        0 <= i < g.executables.len() && g.executables[i].os == "linux"@ && !g.executables[i].is_launcher
            && executable_matches(#[trigger] g.executables[i], variants, args)
}

/// The position of the first game of `lg` that matches, if any.
pub open spec fn first_linux_match(lg: Seq<GameView>, variants: Seq<Seq<char>>, args: Seq<Seq<char>>) -> Option<int>
    decreases lg.len(),
{
    if lg.len() == 0 {
        None
    } else {
        match first_linux_match(lg.drop_last(), variants, args) {
            Some(j) => Some(j),
            None => if linux_game_matches(lg.last(), variants, args) {
                Some(lg.len() - 1)
            } else {
                None
            },
        }
    }
}

/// A position found by `first_linux_match` is in range, matches, and no
/// game before it matches.
pub proof fn lemma_first_linux_match(lg: Seq<GameView>, variants: Seq<Seq<char>>, args: Seq<Seq<char>>)
    ensures
        match first_linux_match(lg, variants, args) {
            Some(j) => 0 <= j < lg.len() && linux_game_matches(lg[j], variants, args)
                && forall|k: int| 0 <= k < j ==> !linux_game_matches(#[trigger] lg[k], variants, args),
            None => forall|k: int| 0 <= k < lg.len() ==> !linux_game_matches(#[trigger] lg[k], variants, args),
        },
    decreases lg.len(),
{
    if lg.len() > 0 {
        let d = lg.drop_last();
        lemma_first_linux_match(d, variants, args);
        assert forall|k: int| 0 <= k < d.len() implies lg[k] == d[k] by {}
    }
}

/// Decides `name_matches`.
pub fn name_matches_variants(name: &String, variants: &Vec<String>) -> (r: bool)
    ensures
        r == name_matches(name@, string_views(variants@)),
{
    let chars = chars_of(name.as_str());
    if chars.len() > 0 && chars[0] == '>' {
        if variants.len() == 0 {
            return false;
        }
        let first = chars_of(variants[0].as_str());
        let mut rest: Vec<char> = Vec::new();
        let n = chars.len();
        for i in 1..n
            invariant
                n == chars@.len(),
                1 <= n,
                rest@ == chars@.subrange(1, i as int),
        {
            rest.push(chars[i]);
            assert(rest@ =~= chars@.subrange(1, i + 1));
        }
        assert(rest@ =~= chars@.skip(1));
        chars_eq(first.as_slice(), rest.as_slice())
    } else {
        let n = variants.len();
        for i in 0..n
            invariant
                n == variants@.len(),
                chars@ == name@,
                !(chars@.len() > 0 && chars@[0] == '>'),
                forall|k: int| 0 <= k < i ==> variants@[k]@ != name@,
        {
            if str_eq(variants[i].as_str(), name.as_str()) {
                assert(string_views(variants@)[i as int] == name@);
                assert(string_views(variants@).contains(name@));
                return true;
            }
        }
        assert forall|k: int| 0 <= k < string_views(variants@).len() implies string_views(variants@)[k] != name@ by {
            assert(variants@[k]@ != name@);
        }
        false
    }
}

/// Decides `arguments_match`.
pub fn arguments_match_args(required: &Option<String>, args: &[String]) -> (r: bool)
    ensures
        r == arguments_match(opt_chars(*required), string_views(args@)),
{
    match required {
        None => true,
        Some(req) => joined_contains(args, req.as_str()),
    }
}

/// The game database.
pub struct GameDatabase {
    entries: Vec<GameEntry>,
    linux_entries: Vec<GameEntry>,
}

impl GameDatabase {
    /// The linux games are exactly those of the entries with a Linux executable.
    #[verifier::type_invariant]
    spec fn well_formed(self) -> bool {
        game_views(self.linux_entries@) == linux_games(game_views(self.entries@))
    }

    /// The games of the database, in order.
    pub closed spec fn games(&self) -> Seq<GameView> {
        game_views(self.entries@)
    }

    /// Builds the database from its games, keeping aside those that can run
    /// on Linux.
    pub fn from_entries(entries: Vec<GameEntry>) -> (r: Self)
        ensures
            r.games() == game_views(entries@),
    {
        let mut linux: Vec<GameEntry> = Vec::new();
        let n = entries.len();
        for i in 0..n
            invariant
                n == entries@.len(),
                game_views(linux@) == linux_games(game_views(entries@).take(i as int)),
        {
            assert(game_views(entries@).take(i + 1).drop_last() =~= game_views(entries@).take(i as int));
            assert(game_views(entries@).take(i + 1).last() == entries@[i as int]@);
            if entries[i].has_linux_executable() {
                let g = entries[i].duplicate();
                let ghost before = linux@;
                linux.push(g);
                assert(game_views(linux@) =~= game_views(before).push(g@));
            }
        }
        assert(game_views(entries@).take(n as int) =~= game_views(entries@));
        GameDatabase { entries, linux_entries: linux }
    }

    /// The first Linux-capable game, in database order, with a Linux,
    /// non-launcher executable matching the path and arguments.
    pub fn find_match(&self, path_info: &ProcessedPath, args: &[String]) -> (r: Option<&GameEntry>)
        ensures
            match r {
                Some(g) => exists|j: int|
                    0 <= j < linux_games(self.games()).len() && g@ == linux_games(self.games())[j]
                        && linux_game_matches(g@, string_views(path_info.variants@), string_views(args@))
                        && forall|k: int| 0 <= k < j ==> !linux_game_matches(
                            #[trigger] linux_games(self.games())[k],
                            string_views(path_info.variants@),
                            string_views(args@),
                        ),
                None => forall|k: int| 0 <= k < linux_games(self.games()).len() ==> !linux_game_matches(
                    #[trigger] linux_games(self.games())[k],
                    string_views(path_info.variants@),
                    string_views(args@),
                ),
            },
            match first_linux_match(linux_games(self.games()), string_views(path_info.variants@), string_views(args@)) {
                Some(j) => r matches Some(g) && g@ == linux_games(self.games())[j],
                None => r is None,
            },
    {
        proof { use_type_invariant(self); }
        let ghost lg = linux_games(self.games());
        let ghost vs = string_views(path_info.variants@);
        let ghost av = string_views(args@);
        let n = self.linux_entries.len();
        assert(lg.len() == n);
        for i in 0..n
            invariant
                n == self.linux_entries@.len(),
                lg == game_views(self.linux_entries@),
                lg == linux_games(self.games()),
                vs == string_views(path_info.variants@),
                av == string_views(args@),
                forall|k: int| 0 <= k < i ==> !linux_game_matches(#[trigger] lg[k], vs, av),
        {
            let entry = &self.linux_entries[i];
            assert(lg[i as int] == entry@);
            let m = entry.executables.len();
            for x in 0..m
                invariant
                    m == entry.executables@.len(),
                    vs == string_views(path_info.variants@),
                    av == string_views(args@),
                    lg[i as int] == entry@,
                    i < n,
                    n == lg.len(),
                    lg == linux_games(self.games()),
                    forall|k: int| 0 <= k < i ==> !linux_game_matches(#[trigger] lg[k], vs, av),
                    forall|k: int| 0 <= k < x ==> !(entry@.executables[k].os == "linux"@
                        && !entry@.executables[k].is_launcher
                        && executable_matches(entry@.executables[k], vs, av)),
            {
                let executable = &entry.executables[x];
                assert(entry@.executables[x as int] == executable@);
                if executable.is_linux() && !executable.is_launcher
                    && self.is_executable_match(executable, &path_info.variants, args) {
                    assert(linux_game_matches(entry@, vs, av));
                    proof {
                        lemma_first_linux_match(lg, vs, av);
                        match first_linux_match(lg, vs, av) {
                            Some(j) => {
                                if j < i {
                                    assert(!linux_game_matches(lg[j], vs, av));
                                }
                                assert(j == i);
                            },
                            None => {
                                assert(!linux_game_matches(lg[i as int], vs, av));
                            },
                        }
                    }
                    return Some(entry);
                }
            }
            assert(!linux_game_matches(entry@, vs, av));
        }
        proof {
            lemma_first_linux_match(lg, vs, av);
            if let Some(j) = first_linux_match(lg, vs, av) {
                assert(!linux_game_matches(lg[j], vs, av));
            }
        }
        None
    }

    /// Whether the executable's name matches the variants and its required
    /// arguments occur in the process arguments.
    pub fn is_executable_match(&self, executable: &ExecutableEntry, variants: &Vec<String>, args: &[String]) -> (r: bool)
        ensures
            r == executable_matches(executable@, string_views(variants@), string_views(args@)),
    {
        if !name_matches_variants(&executable.name, variants) {
            return false;
        }
        arguments_match_args(&executable.arguments, args)
    }

    /// The number of games.
    pub fn len(&self) -> (r: usize)
        ensures
            r == self.games().len(),
    {
        self.entries.len()
    }

    /// The number of games with a Linux executable.
    pub fn linux_len(&self) -> (r: usize)
        ensures
            r == linux_games(self.games()).len(),
    {
        proof { use_type_invariant(self); }
        self.linux_entries.len()
    }
}

} // verus!
