use vstd::prelude::*;

use crate::date::{
    is_date_text, lemma_format_parse_round_trip, lemma_parse_format_round_trip, parse, text_day, text_month, text_year, ymd_text,
    Date,
};
use crate::error::ConfigError;
use crate::my_text_buffer::MyTextBuffer;

verus! {

/// The characters of each string, in order.
pub open spec fn texts(v: Seq<String>) -> Seq<Seq<char>> {
    v.map_values(|s: String| s@)
}

/// Whether no two entries are equal.
pub open spec fn no_duplicates(s: Seq<Seq<char>>) -> bool {
    forall|i: int, j: int| 0 <= i < s.len() && 0 <= j < s.len() && i != j ==> s[i] != s[j]
}

/// The collection after adding `x`: unchanged where `x` is already there, else `x`
/// appended at the end.
pub open spec fn with_entry(s: Seq<Seq<char>>, x: Seq<char>) -> Seq<Seq<char>> {
    if s.contains(x) {
        s
    } else {
        s.push(x)
    }
}

/// Adding an entry twice leaves the collection as adding it once did, and the second
/// addition finds the entry there and is refused; from an empty collection the result
/// has one entry.
pub proof fn lemma_add_twice(s: Seq<Seq<char>>, x: Seq<char>)
    ensures
        with_entry(s, x).contains(x),
        with_entry(with_entry(s, x), x) == with_entry(s, x),
        s.len() == 0 ==> with_entry(with_entry(s, x), x).len() == 1,
{
    if !s.contains(x) {
        assert(s.push(x)[s.len() as int] == x);
    }
}

/// The entries in order, separated by single spaces.
pub open spec fn joined_with_spaces(s: Seq<Seq<char>>) -> Seq<char>
    decreases s.len(),
{
    if s.len() == 0 {
        Seq::empty()
    } else if s.len() == 1 {
        s[0]
    } else {
        joined_with_spaces(s.drop_last()) + seq![' '] + s.last()
    }
}

/// The text with every space turned into a hyphen.
pub open spec fn hyphenated(s: Seq<char>) -> Seq<char> {
    s.map_values(|c: char| if c == ' ' { '-' } else { c })
}

/// `{date}-{title with spaces as hyphens}.md`.
pub open spec fn article_file_name(date: Seq<char>, title: Seq<char>) -> Seq<char> {
    date + seq!['-'] + hyphenated(title) + seq!['.', 'm', 'd']
}

/// The YAML text between two `---` delimiter lines.
pub open spec fn front_matter_text(yaml: Seq<char>) -> Seq<char> {
    seq!['-', '-', '-', '\n'] + yaml + seq!['\n', '-', '-', '-', '\n']
}

/// Appends `entry` unless an equal entry is already there.
fn add_unique(v: &mut Vec<String>, entry: String) -> (r: Result<(), ConfigError>)
    ensures
        texts(final(v)@) == with_entry(texts(old(v)@), entry@),
        r is Err <==> texts(old(v)@).contains(entry@),
        r matches Err(e) ==> (e matches ConfigError::DuplicateEntry(d) && d@ == entry@),
{
    let mut i: usize = 0;
    while i < v.len()
        invariant
            0 <= i <= v@.len(),
            forall|j: int| 0 <= j < i ==> v@[j]@ != entry@,
        decreases v@.len() - i,
    {
        if v[i] == entry {
            assert(texts(v@)[i as int] == entry@);
            return Err(ConfigError::DuplicateEntry(entry));
        }
        i = i + 1;
    }
    assert(!texts(v@).contains(entry@));
    let ghost before = v@;
    v.push(entry);
    assert(texts(v@) =~= texts(before).push(entry@));
    Ok(())
}

/// Removes the entry at `index`, shifting later entries down.
fn delete_at(v: &mut Vec<String>, index: usize) -> (r: Result<(), ConfigError>)
    ensures
        old(v)@.len() == 0 ==> r == Err::<(), ConfigError>(ConfigError::EmptyCollection),
        old(v)@.len() != 0 && index >= old(v)@.len() ==> r == Err::<(), ConfigError>(
            ConfigError::IndexOutOfBounds(index),
        ),
        index < old(v)@.len() ==> r is Ok && texts(final(v)@) == texts(old(v)@).remove(
            index as int,
        ),
        r is Err ==> final(v)@ == old(v)@,
{
    if v.len() == 0 {
        return Err(ConfigError::EmptyCollection);
    }
    if index >= v.len() {
        return Err(ConfigError::IndexOutOfBounds(index));
    }
    let ghost before = v@;
    v.remove(index);
    assert(texts(v@) =~= texts(before).remove(index as int));
    Ok(())
}

/// A collection with one entry removed keeps having no equal entries.
proof fn lemma_remove_keeps_unique(s: Seq<Seq<char>>, i: int)
    requires
        no_duplicates(s),
        0 <= i < s.len(),
    ensures
        no_duplicates(s.remove(i)),
{
    let t = s.remove(i);
    assert forall|a: int, b: int| 0 <= a < t.len() && 0 <= b < t.len() && a != b implies t[a]
        != t[b] by {
        let a2 = if a < i { a } else { a + 1 };
        let b2 = if b < i { b } else { b + 1 };
        assert(t[a] == s[a2] && t[b] == s[b2]);
    }
}

/// A collection that gains an entry it lacked keeps having no equal entries.
proof fn lemma_push_keeps_unique(s: Seq<Seq<char>>, x: Seq<char>)
    requires
        no_duplicates(s),
        !s.contains(x),
    ensures
        no_duplicates(s.push(x)),
{
    let t = s.push(x);
    assert forall|a: int, b: int| 0 <= a < t.len() && 0 <= b < t.len() && a != b implies t[a]
        != t[b] by {
        if a == s.len() {
            assert(t[b] == s[b]);
        } else if b == s.len() {
            assert(t[a] == s[a]);
        }
    }
}

/// The entries joined by single spaces.
fn join_with_spaces(v: &Vec<String>) -> (r: String)
    ensures
        r@ == joined_with_spaces(texts(v@)),
{
    let mut r = String::new();
    let mut i: usize = 0;
    while i < v.len()
        invariant
            0 <= i <= v@.len(),
            r@ == joined_with_spaces(texts(v@).subrange(0, i as int)),
        decreases v@.len() - i,
    {
        proof {
            reveal_strlit(" ");
        }
        let ghost prev = r@;
        if i > 0 {
            r.append(" ");
        }
        r.append(v[i].as_str());
        proof {
            let t = texts(v@).subrange(0, i + 1);
            assert(t.drop_last() =~= texts(v@).subrange(0, i as int));
            if i == 0 {
                assert(prev =~= Seq::<char>::empty());
                assert(r@ =~= t[0]);
            } else {
                assert(r@ =~= prev + seq![' '] + t.last());
            }
        }
        i = i + 1;
    }
    assert(texts(v@).subrange(0, v@.len() as int) =~= texts(v@));
    r
}

/// The text with every space turned into a hyphen.
fn hyphenate(s: &str) -> (r: String)
    ensures
        r@ == hyphenated(s@),
{
    let n = s.unicode_len();
    let mut r = String::new();
    let mut i: usize = 0;
    while i < n
        invariant
            0 <= i <= n,
            n == s@.len(),
            r@ == hyphenated(s@.subrange(0, i as int)),
        decreases n - i,
    {
        proof {
            reveal_strlit("-");
        }
        let ghost prev = r@;
        let c = s.get_char(i);
        if c == ' ' {
            r.append("-");
        } else {
            r.append(s.substring_char(i, i + 1));
        }
        assert(r@ =~= hyphenated(s@.subrange(0, i + 1)));
        i = i + 1;
    }
    assert(s@.subrange(0, n as int) =~= s@);
    r
}

/// The YAML text framed by `---` lines, as the head of a Markdown file.
pub fn front_matter(yaml: &str) -> (r: String)
    ensures
        r@ == front_matter_text(yaml@),
{
    proof {
        reveal_strlit("---\n");
        reveal_strlit("\n---\n");
    }
    let mut r = String::new();
    r.append("---\n");
    r.append(yaml);
    r.append("\n---\n");
    assert(r@ =~= front_matter_text(yaml@));
    r
}

/// The metadata of one blog post: title, date, categories and tags.
pub struct ArticleConfig {
    title: String,
    date: String,
    categories: Vec<String>,
    tags: Vec<String>,
}

impl ArticleConfig {
    pub closed spec fn spec_title(&self) -> Seq<char> {
        self.title@
    }

    pub closed spec fn spec_date(&self) -> Seq<char> {
        self.date@
    }

    pub closed spec fn spec_categories(&self) -> Seq<Seq<char>> {
        texts(self.categories@)
    }

    pub closed spec fn spec_tags(&self) -> Seq<Seq<char>> {
        texts(self.tags@)
    }

    /// Neither collection holds an entry twice.
    pub open spec fn wf(&self) -> bool {
        no_duplicates(self.spec_categories()) && no_duplicates(self.spec_tags())
    }

    pub fn new(title: String, date: String, categories: Vec<String>, tags: Vec<String>) -> (r: Self)
        ensures
            r.spec_title() == title@,
            r.spec_date() == date@,
            r.spec_categories() == texts(categories@),
            r.spec_tags() == texts(tags@),
    {
        ArticleConfig { title: title, date: date, categories: categories, tags: tags }
    }
    /// Appends a tag; a tag that is already there is refused and nothing changes.
    pub fn add_tag(&mut self, tag: String) -> (r: Result<(), ConfigError>)
        ensures
            final(self).spec_tags() == with_entry(old(self).spec_tags(), tag@),
            r is Err <==> old(self).spec_tags().contains(tag@),
            r matches Err(e) ==> (e matches ConfigError::DuplicateEntry(d) && d@ == tag@),
            final(self).spec_title() == old(self).spec_title(),
            final(self).spec_date() == old(self).spec_date(),
            final(self).spec_categories() == old(self).spec_categories(),
            old(self).wf() ==> final(self).wf(),
    {
        let r = add_unique(&mut self.tags, tag);
        proof {
            if old(self).wf() && r is Ok {
                lemma_push_keeps_unique(old(self).spec_tags(), tag@);
            }
        }
        r
    }

    /// Appends a category; a category that is already there is refused and nothing changes.
    pub fn add_category(&mut self, category: String) -> (r: Result<(), ConfigError>)
        ensures
            final(self).spec_categories() == with_entry(old(self).spec_categories(), category@),
            r is Err <==> old(self).spec_categories().contains(category@),
            r matches Err(e) ==> (e matches ConfigError::DuplicateEntry(d) && d@ == category@),
            final(self).spec_title() == old(self).spec_title(),
            final(self).spec_date() == old(self).spec_date(),
            final(self).spec_tags() == old(self).spec_tags(),
            old(self).wf() ==> final(self).wf(),
    {
        let r = add_unique(&mut self.categories, category);
        proof {
            if old(self).wf() && r is Ok {
                lemma_push_keeps_unique(old(self).spec_categories(), category@);
            }
        }
        r
    }

    /// Removes the tag at `index`; the others keep their order.
    pub fn delete_tag(&mut self, index: usize) -> (r: Result<(), ConfigError>)
        ensures
            old(self).spec_tags().len() == 0 ==> r == Err::<(), ConfigError>(
                ConfigError::EmptyCollection,
            ),
            old(self).spec_tags().len() != 0 && index >= old(self).spec_tags().len() ==> r
                == Err::<(), ConfigError>(ConfigError::IndexOutOfBounds(index)),
            index < old(self).spec_tags().len() ==> r is Ok && final(self).spec_tags() == old(
                self,
            ).spec_tags().remove(index as int),
            r is Err ==> final(self).spec_tags() == old(self).spec_tags(),
            final(self).spec_title() == old(self).spec_title(),
            final(self).spec_date() == old(self).spec_date(),
            final(self).spec_categories() == old(self).spec_categories(),
            old(self).wf() ==> final(self).wf(),
    {
        let r = delete_at(&mut self.tags, index);
        proof {
            if old(self).wf() && r is Ok {
                lemma_remove_keeps_unique(old(self).spec_tags(), index as int);
            }
        }
        r
    }

    /// Removes the category at `index`; the others keep their order.
    pub fn delete_category(&mut self, index: usize) -> (r: Result<(), ConfigError>)
        ensures
            old(self).spec_categories().len() == 0 ==> r == Err::<(), ConfigError>(
                ConfigError::EmptyCollection,
            ),
            old(self).spec_categories().len() != 0 && index >= old(self).spec_categories().len()
                ==> r == Err::<(), ConfigError>(ConfigError::IndexOutOfBounds(index)),
            index < old(self).spec_categories().len() ==> r is Ok && final(self).spec_categories()
                == old(self).spec_categories().remove(index as int),
            r is Err ==> final(self).spec_categories() == old(self).spec_categories(),
            final(self).spec_title() == old(self).spec_title(),
            final(self).spec_date() == old(self).spec_date(),
            final(self).spec_tags() == old(self).spec_tags(),
            old(self).wf() ==> final(self).wf(),
    {
        let r = delete_at(&mut self.categories, index);
        proof {
            if old(self).wf() && r is Ok {
                lemma_remove_keeps_unique(old(self).spec_categories(), index as int);
            }
        }
        r
    }
    pub fn tags_to_string(&self) -> (r: String)
        ensures
            r@ == joined_with_spaces(self.spec_tags()),
    {
        join_with_spaces(&self.tags)
    }

    pub fn categories_to_string(&self) -> (r: String)
        ensures
            r@ == joined_with_spaces(self.spec_categories()),
    {
        join_with_spaces(&self.categories)
    }

    pub fn tags_len(&self) -> (r: usize)
        ensures
            r == self.spec_tags().len(),
    {
        self.tags.len()
    }

    pub fn categories_len(&self) -> (r: usize)
        ensures
            r == self.spec_categories().len(),
    {
        self.categories.len()
    }

    /// The stored date, read back; `InvalidFormat` if the text is not a valid date.
    pub fn get_date(&self) -> (r: Result<Date, ConfigError>)
        ensures
            r is Ok <==> is_date_text(self.spec_date()),
            r matches Ok(d) ==> d.spec_year() == text_year(self.spec_date()) && d.spec_month()
                == text_month(self.spec_date()) && d.spec_day() == text_day(self.spec_date()),
            r matches Err(e) ==> e == ConfigError::InvalidFormat,
    {
        parse(self.date.as_str())
    }

    /// Stores the date in the fixed pattern.
    pub fn set_date(&mut self, date: &Date)
        ensures
            final(self).spec_date() == ymd_text(date.spec_year(), date.spec_month(), date.spec_day()),
            is_date_text(final(self).spec_date()),
            text_year(final(self).spec_date()) == date.spec_year(),
            text_month(final(self).spec_date()) == date.spec_month(),
            text_day(final(self).spec_date()) == date.spec_day(),
            final(self).spec_title() == old(self).spec_title(),
            final(self).spec_categories() == old(self).spec_categories(),
            final(self).spec_tags() == old(self).spec_tags(),
            old(self).wf() ==> final(self).wf(),
    {
        self.date = date.format();
        proof {
            lemma_parse_format_round_trip(date.spec_year(), date.spec_month(), date.spec_day());
        }
    }

    /// The name of the file that saving writes: `{date}-{title with spaces as hyphens}.md`.
    /// An empty title has no file name.
    pub fn file_name(&self) -> (r: Result<String, ConfigError>)
        ensures
            r is Err <==> self.spec_title().len() == 0,
            r matches Err(e) ==> e == ConfigError::EmptyTitle,
            r matches Ok(n) ==> n@ == article_file_name(self.spec_date(), self.spec_title()),
    {
        if self.title.as_str().is_empty() {
            return Err(ConfigError::EmptyTitle);
        }
        proof {
            reveal_strlit("-");
            reveal_strlit(".md");
        }
        let mut r = self.date.clone();
        r.append("-");
        let h = hyphenate(self.title.as_str());
        r.append(h.as_str());
        r.append(".md");
        assert(r@ =~= article_file_name(self.spec_date(), self.spec_title()));
        Ok(r)
    }

    /// Decides what saving writes to `target`, given whether that path is already taken
    /// and the YAML form of this metadata: an empty title is refused first, an existing
    /// file next (it is never overwritten); otherwise the content is the framed YAML.
    pub fn save_document(&self, target: String, target_exists: bool, yaml: &str) -> (r: Result<
        String,
        ConfigError,
    >)
        ensures
            self.spec_title().len() == 0 ==> r == Err::<String, ConfigError>(
                ConfigError::EmptyTitle,
            ),
            self.spec_title().len() != 0 && target_exists ==> (r matches Err(
                ConfigError::FileAlreadyExists(p),
            ) && p@ == target@),
            self.spec_title().len() != 0 && !target_exists ==> (r matches Ok(c) && c@
                == front_matter_text(yaml@)),
    {
        if self.title.as_str().is_empty() {
            return Err(ConfigError::EmptyTitle);
        }
        if target_exists {
            return Err(ConfigError::FileAlreadyExists(target));
        }
        Ok(front_matter(yaml))
    }
    /// An editing view on the title; edits made through it are the title's once it is
    /// given up.
    pub fn get_title_buffer(&mut self) -> (r: MyTextBuffer<'_>)
        ensures
            r.text() == old(self).spec_title(),
            final(self).spec_title() == (*final(r.target()))@,
            final(self).spec_date() == old(self).spec_date(),
            final(self).spec_categories() == old(self).spec_categories(),
            final(self).spec_tags() == old(self).spec_tags(),
    {
        MyTextBuffer::new(&mut self.title)
    }
    pub fn categories(&self) -> (r: &Vec<String>)
        ensures
            texts(r@) == self.spec_categories(),
    {
        &self.categories
    }

    pub fn tags(&self) -> (r: &Vec<String>)
        ensures
            texts(r@) == self.spec_tags(),
    {
        &self.tags
    }

    pub fn date(&self) -> (r: &str)
        ensures
            r@ == self.spec_date(),
    {
        self.date.as_str()
    }

    pub fn title(&self) -> (r: &str)
        ensures
            r@ == self.spec_title(),
    {
        self.title.as_str()
    }

    /// Replaces the title; an empty one is allowed until saving.
    pub fn set_title(&mut self, title: String)
        ensures
            final(self).spec_title() == title@,
            final(self).spec_date() == old(self).spec_date(),
            final(self).spec_categories() == old(self).spec_categories(),
            final(self).spec_tags() == old(self).spec_tags(),
            old(self).wf() ==> final(self).wf(),
    {
        self.title = title;
    }
}

/// The date text to start from: the given one if it is a valid date, else `InvalidFormat`;
/// without one, `today` in the fixed pattern.
pub fn initial_date(given: Option<&str>, today: &Date) -> (r: Result<String, ConfigError>)
    ensures
        given is None ==> (r matches Ok(t) && t@ == ymd_text(
            today.spec_year(),
            today.spec_month(),
            today.spec_day(),
        )),
        given matches Some(s) ==> (r is Ok <==> is_date_text(s@)),
        given matches Some(s) ==> (r matches Ok(t) ==> t@ == s@),
        r matches Err(e) ==> e == ConfigError::InvalidFormat,
{
    match given {
        Some(s) => match parse(s) {
            Ok(d) => {
                proof {
                    lemma_format_parse_round_trip(s@);
                }
                Ok(d.format())
            },
            Err(e) => Err(e),
        },
        None => Ok(today.format()),
    }
}

} // verus!
