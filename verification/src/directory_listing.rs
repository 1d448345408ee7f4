//! A directory: what describes it, its sub-directories and its files.

use vstd::prelude::*;
use crate::AccessLevel;
use crate::view::views;
use crate::errors::NfsError;
use crate::file::{File, FileView};
use crate::metadata::{DirectoryInfo, DirectoryInfoView};
use crate::name::{key_option_view, NetworkName};
use crate::timestamp::Timestamp;

verus! {

/// Whether `i` is the first place in `s` at which `p` holds.
pub open spec fn is_first<T>(s: Seq<T>, p: spec_fn(T) -> bool, i: int) -> bool {
    &&& 0 <= i < s.len()
    &&& p(s[i])
    &&& forall|j: int| 0 <= j < i ==> !p(#[trigger] s[j])
}

/// The first place in `s` at which `p` holds, if there is one.
pub open spec fn position<T>(s: Seq<T>, p: spec_fn(T) -> bool) -> Option<int> {
    if exists|i: int| is_first(s, p, i) {
        Some(choose|i: int| is_first(s, p, i))
    } else {
        None
    }
}

/// `s` with `x` in the first place at which `p` holds, or at the end where
/// `p` holds nowhere.
pub open spec fn upserted<T>(s: Seq<T>, p: spec_fn(T) -> bool, x: T) -> Seq<T> {
    match position(s, p) {
        Some(i) => s.update(i, x),
        None => s.push(x),
    }
}

/// The first place at which a predicate holds is `position`.
pub proof fn lemma_position_some<T>(s: Seq<T>, p: spec_fn(T) -> bool, i: int)
    requires
        is_first(s, p, i),
    ensures
        position(s, p) == Some(i),
{
    let c = choose|k: int| is_first(s, p, k);
    assert(is_first(s, p, c));
    if c < i {
        assert(!p(s[c]));
    }
    if i < c {
        assert(!p(s[i]));
    }
}

/// Where a predicate holds nowhere, `position` is `None`.
pub proof fn lemma_position_none<T>(s: Seq<T>, p: spec_fn(T) -> bool)
    requires
        forall|j: int| 0 <= j < s.len() ==> !p(#[trigger] s[j]),
    ensures
        position(s, p) is None,
{
    if exists|i: int| is_first(s, p, i) {
        let c = choose|i: int| is_first(s, p, i);
        assert(!p(s[c]));
    }
}

/// What `position` says of its result.
pub proof fn lemma_position<T>(s: Seq<T>, p: spec_fn(T) -> bool)
    ensures
        match position(s, p) {
            Some(i) => is_first(s, p, i),
            None => forall|j: int| 0 <= j < s.len() ==> !p(#[trigger] s[j]),
        },
{
    if exists|i: int| is_first(s, p, i) {
    } else {
        assert forall|j: int| 0 <= j < s.len() implies !p(#[trigger] s[j]) by {
            if p(s[j]) {
                lemma_first_exists(s, p, j);
            }
        }
    }
}

/// Where a predicate holds somewhere, it holds somewhere first.
pub proof fn lemma_first_exists<T>(s: Seq<T>, p: spec_fn(T) -> bool, k: int)
    requires
        0 <= k < s.len(),
        p(s[k]),
    ensures
        exists|i: int| is_first(s, p, i),
    decreases k,
{
    if exists|j: int| 0 <= j < k && p(s[j]) {
        let j = choose|j: int| 0 <= j < k && p(s[j]);
        lemma_first_exists(s, p, j);
    } else {
        assert(is_first(s, p, k));
    }
}

/// Holds of the files named `name`.
pub open spec fn file_named(name: Seq<char>) -> spec_fn(FileView) -> bool {
    |f: FileView| f.metadata.name == name
}

/// Holds of the directories named `name`.
pub open spec fn directory_named(name: Seq<char>) -> spec_fn(DirectoryInfoView) -> bool {
    |d: DirectoryInfoView| d.name == name
}

/// Holds of the directories whose identifier is `id`.
pub open spec fn directory_with_id(id: Seq<u8>) -> spec_fn(DirectoryInfoView) -> bool {
    |d: DirectoryInfoView| d.id == id
}

/// A directory listing.
#[derive(Debug)]
pub struct DirectoryListing {
    pub info: DirectoryInfo,
    pub sub_directories: Vec<DirectoryInfo>,
    pub files: Vec<File>,
}

/// The mathematical value of a [`DirectoryListing`].
pub struct DirectoryListingView {
    pub info: DirectoryInfoView,
    pub sub_directories: Seq<DirectoryInfoView>,
    pub files: Seq<FileView>,
}

impl DirectoryListingView {
    /// No two sub-directories share a name or an identifier, and no two
    /// files share a name.
    pub open spec fn wf(self) -> bool {
        &&& forall|i: int, j: int|
            0 <= i < j < self.sub_directories.len() ==> (#[trigger] self.sub_directories[i]).name
                != (#[trigger] self.sub_directories[j]).name
        &&& forall|i: int, j: int|
            0 <= i < j < self.sub_directories.len() ==> (#[trigger] self.sub_directories[i]).id
                != (#[trigger] self.sub_directories[j]).id
        &&& forall|i: int, j: int|
            0 <= i < j < self.files.len() ==> (#[trigger] self.files[i]).metadata.name != (
            #[trigger] self.files[j]).metadata.name
    }

    /// The key under which the listing is found.
    pub open spec fn key(self) -> (Seq<u8>, u64) {
        self.info.key()
    }

    /// The first file named `name`.
    pub open spec fn find_file(self, name: Seq<char>) -> Option<FileView> {
        match position(self.files, file_named(name)) {
            Some(i) => Some(self.files[i]),
            None => None,
        }
    }

    /// The first sub-directory named `name`.
    pub open spec fn find_sub_directory(self, name: Seq<char>) -> Option<DirectoryInfoView> {
        match position(self.sub_directories, directory_named(name)) {
            Some(i) => Some(self.sub_directories[i]),
            None => None,
        }
    }

    /// Whether another sub-directory than `info` already goes by its name.
    pub open spec fn name_taken(self, info: DirectoryInfoView) -> bool {
        exists|j: int|
            0 <= j < self.sub_directories.len() && (#[trigger] self.sub_directories[j]).name
                == info.name && self.sub_directories[j].id != info.id
    }

    /// An empty listing for a directory created at `now`.
    pub open spec fn created(
        id: Seq<u8>,
        name: Seq<char>,
        type_tag: u64,
        user_metadata: Seq<u8>,
        versioned: bool,
        access_level: AccessLevel,
        parent_dir_key: Option<(Seq<u8>, u64)>,
        now: Timestamp,
    ) -> Self {
        DirectoryListingView {
            info: DirectoryInfoView {
                id,
                type_tag,
                name,
                user_metadata,
                versioned,
                access_level,
                created_time: now,
                modified_time: now,
                parent_dir_key,
            },
            sub_directories: Seq::empty(),
            files: Seq::empty(),
        }
    }

    /// Why `info` cannot be put among the sub-directories, if it cannot:
    /// its name is empty, or another sub-directory goes by it.
    pub open spec fn refusal(self, info: DirectoryInfoView) -> Option<NfsError> {
        if info.name.len() == 0 {
            Some(NfsError::NameIsEmpty)
        } else if self.name_taken(info) {
            Some(NfsError::AlreadyExists)
        } else {
            None
        }
    }

    /// The listing after `info` took the place of the sub-directory with
    /// its identifier, or was added where there was none, at `now`.
    pub open spec fn with_sub_directory(self, info: DirectoryInfoView, now: Timestamp) -> Self {
        DirectoryListingView {
            info: DirectoryInfoView { modified_time: now, ..self.info },
            sub_directories: upserted(self.sub_directories, directory_with_id(info.id), info),
            files: self.files,
        }
    }

    /// The listing after `file` took the place of the file with its name,
    /// or was added where there was none, at `now`.
    pub open spec fn with_file(self, file: FileView, now: Timestamp) -> Self {
        DirectoryListingView {
            info: DirectoryInfoView { modified_time: now, ..self.info },
            sub_directories: self.sub_directories,
            files: upserted(self.files, file_named(file.metadata.name), file),
        }
    }

    /// The listing without its sub-directory at `index`.
    pub open spec fn without_sub_directory(self, index: int) -> Self {
        DirectoryListingView { sub_directories: self.sub_directories.remove(index), ..self }
    }

    /// The listing without its file at `index`.
    pub open spec fn without_file(self, index: int) -> Self {
        DirectoryListingView { files: self.files.remove(index), ..self }
    }
}

impl View for DirectoryListing {
    type V = DirectoryListingView;

    open spec fn view(&self) -> DirectoryListingView {
        DirectoryListingView {
            info: self.info@,
            sub_directories: views(self.sub_directories@),
            files: views(self.files@),
        }
    }
}

/// A copy of a list of directories.
pub fn infos_clone(infos: &Vec<DirectoryInfo>) -> (r: Vec<DirectoryInfo>)
    ensures
        views(r@) == views(infos@),
{
    let mut out: Vec<DirectoryInfo> = Vec::new();
    let mut i: usize = 0;
    while i < infos.len()
        invariant
            i <= infos.len(),
            out.len() == i,
            forall|j: int| 0 <= j < i ==> out@[j]@ == infos@[j]@,
        decreases infos.len() - i,
    {
        out.push(infos[i].clone());
        i += 1;
    }
    assert(views(out@) =~= views(infos@));
    out
}

/// A copy of a list of files.
pub fn files_clone(files: &Vec<File>) -> (r: Vec<File>)
    ensures
        views(r@) == views(files@),
{
    let mut out: Vec<File> = Vec::new();
    let mut i: usize = 0;
    while i < files.len()
        invariant
            i <= files.len(),
            out.len() == i,
            forall|j: int| 0 <= j < i ==> out@[j]@ == files@[j]@,
        decreases files.len() - i,
    {
        out.push(files[i].clone());
        i += 1;
    }
    assert(views(out@) =~= views(files@));
    out
}

impl Clone for DirectoryListing {
    fn clone(&self) -> (r: Self)
        ensures
            r@ == self@,
    {
        DirectoryListing {
            info: self.info.clone(),
            sub_directories: infos_clone(&self.sub_directories),
            files: files_clone(&self.files),
        }
    }
}

impl DirectoryListing {
    /// An empty listing for a directory created at `now` under the
    /// identifier `id`.
    pub fn new(
        id: NetworkName,
        name: String,
        type_tag: u64,
        user_metadata: Vec<u8>,
        versioned: bool,
        access_level: AccessLevel,
        parent_dir_key: Option<(NetworkName, u64)>,
        now: Timestamp,
    ) -> (r: DirectoryListing)
        ensures
            r@ == DirectoryListingView::created(
                id@,
                name@,
                type_tag,
                user_metadata@,
                versioned,
                access_level,
                key_option_view(parent_dir_key),
                now,
            ),
            r@.wf(),
    {
        let info = DirectoryInfo::new(
            id,
            name,
            type_tag,
            user_metadata,
            versioned,
            access_level,
            parent_dir_key,
            now,
        );
        let r = DirectoryListing { info, sub_directories: Vec::new(), files: Vec::new() };
        assert(r@.sub_directories =~= Seq::<DirectoryInfoView>::empty());
        assert(r@.files =~= Seq::<FileView>::empty());
        r
    }

    /// Whether no two sub-directories share a name or an identifier and no
    /// two files share a name.
    pub fn is_well_formed(&self) -> (r: bool)
        ensures
            r == self@.wf(),
    {
        let ghost subs = self@.sub_directories;
        let ghost files = self@.files;
        let mut j: usize = 0;
        while j < self.sub_directories.len()
            invariant
                j <= self.sub_directories.len(),
                subs == self@.sub_directories,
                forall|a: int, b: int|
                    0 <= a < b < j ==> (#[trigger] subs[a]).name != (#[trigger] subs[b]).name
                        && subs[a].id != subs[b].id,
            decreases self.sub_directories.len() - j,
        {
            let mut i: usize = 0;
            while i < j
                invariant
                    i <= j < self.sub_directories.len(),
                    subs == self@.sub_directories,
                    forall|a: int|
                        0 <= a < i ==> (#[trigger] subs[a]).name != subs[j as int].name
                            && subs[a].id != subs[j as int].id,
                decreases j - i,
            {
                assert(subs[i as int] == self.sub_directories@[i as int]@);
                assert(subs[j as int] == self.sub_directories@[j as int]@);
                if *self.sub_directories[i].get_name() == *self.sub_directories[j].get_name()
                    || self.sub_directories[i].get_id().same(self.sub_directories[j].get_id()) {
                    return false;
                }
                i += 1;
            }
            j += 1;
        }
        let mut k: usize = 0;
        while k < self.files.len()
            invariant
                k <= self.files.len(),
                files == self@.files,
                forall|a: int, b: int|
                    0 <= a < b < k ==> (#[trigger] files[a]).metadata.name != (
                    #[trigger] files[b]).metadata.name,
            decreases self.files.len() - k,
        {
            let mut i: usize = 0;
            while i < k
                invariant
                    i <= k < self.files.len(),
                    files == self@.files,
                    forall|a: int|
                        0 <= a < i ==> (#[trigger] files[a]).metadata.name
                            != files[k as int].metadata.name,
                decreases k - i,
            {
                assert(files[i as int] == self.files@[i as int]@);
                assert(files[k as int] == self.files@[k as int]@);
                if *self.files[i].get_name() == *self.files[k].get_name() {
                    return false;
                }
                i += 1;
            }
            k += 1;
        }
        true
    }

    /// Whether both listings hold the same in the same order.
    pub fn same(&self, other: &DirectoryListing) -> (r: bool)
        ensures
            r == (self@ == other@),
    {
        if !self.info.same(&other.info) {
            return false;
        }
        if self.sub_directories.len() != other.sub_directories.len() {
            assert(self@.sub_directories.len() != other@.sub_directories.len());
            return false;
        }
        if self.files.len() != other.files.len() {
            assert(self@.files.len() != other@.files.len());
            return false;
        }
        let mut i: usize = 0;
        while i < self.sub_directories.len()
            invariant
                self.sub_directories.len() == other.sub_directories.len(),
                i <= self.sub_directories.len(),
                forall|j: int| 0 <= j < i ==> self.sub_directories@[j]@ == other.sub_directories@[j]@,
            decreases self.sub_directories.len() - i,
        {
            if !self.sub_directories[i].same(&other.sub_directories[i]) {
                assert(self@.sub_directories[i as int] == self.sub_directories@[i as int]@);
                assert(other@.sub_directories[i as int] == other.sub_directories@[i as int]@);
                return false;
            }
            i += 1;
        }
        assert(self@.sub_directories =~= other@.sub_directories);
        let mut k: usize = 0;
        while k < self.files.len()
            invariant
                self.files.len() == other.files.len(),
                k <= self.files.len(),
                self@.sub_directories == other@.sub_directories,
                self@.info == other@.info,
                forall|j: int| 0 <= j < k ==> self.files@[j]@ == other.files@[j]@,
            decreases self.files.len() - k,
        {
            if !self.files[k].same(&other.files[k]) {
                assert(self@.files[k as int] == self.files@[k as int]@);
                assert(other@.files[k as int] == other.files@[k as int]@);
                return false;
            }
            k += 1;
        }
        assert(self@.files =~= other@.files);
        true
    }

    /// The place of the first file named `name`.
    pub fn get_file_index(&self, name: &String) -> (r: Option<usize>)
        ensures
            match r {
                Some(i) => position(self@.files, file_named(name@)) == Some(i as int),
                None => position(self@.files, file_named(name@)) is None,
            },
    {
        let mut i: usize = 0;
        while i < self.files.len()
            invariant
                i <= self.files.len(),
                forall|j: int| 0 <= j < i ==> !file_named(name@)(#[trigger] self@.files[j]),
            decreases self.files.len() - i,
        {
            if *self.files[i].get_name() == *name {
                proof {
                    assert(self@.files[i as int] == self.files@[i as int]@);
                    lemma_position_some(self@.files, file_named(name@), i as int);
                }
                return Some(i);
            }
            assert(self@.files[i as int] == self.files@[i as int]@);
            i += 1;
        }
        proof {
            lemma_position_none(self@.files, file_named(name@));
        }
        None
    }

    /// The place of the first sub-directory named `name`.
    pub fn get_sub_directory_index(&self, name: &String) -> (r: Option<usize>)
        ensures
            match r {
                Some(i) => position(self@.sub_directories, directory_named(name@)) == Some(
                    i as int,
                ),
                None => position(self@.sub_directories, directory_named(name@)) is None,
            },
    {
        let mut i: usize = 0;
        while i < self.sub_directories.len()
            invariant
                i <= self.sub_directories.len(),
                forall|j: int|
                    0 <= j < i ==> !directory_named(name@)(#[trigger] self@.sub_directories[j]),
            decreases self.sub_directories.len() - i,
        {
            if *self.sub_directories[i].get_name() == *name {
                proof {
                    assert(self@.sub_directories[i as int] == self.sub_directories@[i as int]@);
                    lemma_position_some(self@.sub_directories, directory_named(name@), i as int);
                }
                return Some(i);
            }
            assert(self@.sub_directories[i as int] == self.sub_directories@[i as int]@);
            i += 1;
        }
        proof {
            lemma_position_none(self@.sub_directories, directory_named(name@));
        }
        None
    }

    /// The place of the first sub-directory whose identifier is `id`.
    pub fn get_sub_directory_index_by_id(&self, id: &NetworkName) -> (r: Option<usize>)
        ensures
            match r {
                Some(i) => position(self@.sub_directories, directory_with_id(id@)) == Some(
                    i as int,
                ),
                None => position(self@.sub_directories, directory_with_id(id@)) is None,
            },
    {
        let mut i: usize = 0;
        while i < self.sub_directories.len()
            invariant
                i <= self.sub_directories.len(),
                forall|j: int|
                    0 <= j < i ==> !directory_with_id(id@)(#[trigger] self@.sub_directories[j]),
            decreases self.sub_directories.len() - i,
        {
            if self.sub_directories[i].get_id().same(id) {
                proof {
                    assert(self@.sub_directories[i as int] == self.sub_directories@[i as int]@);
                    lemma_position_some(self@.sub_directories, directory_with_id(id@), i as int);
                }
                return Some(i);
            }
            assert(self@.sub_directories[i as int] == self.sub_directories@[i as int]@);
            i += 1;
        }
        proof {
            lemma_position_none(self@.sub_directories, directory_with_id(id@));
        }
        None
    }

    /// Whether another sub-directory than `info` already goes by its name.
    pub fn is_name_taken(&self, info: &DirectoryInfo) -> (r: bool)
        ensures
            r == self@.name_taken(info@),
    {
        let mut i: usize = 0;
        while i < self.sub_directories.len()
            invariant
                i <= self.sub_directories.len(),
                forall|j: int|
                    0 <= j < i ==> !((#[trigger] self@.sub_directories[j]).name == info@.name
                        && self@.sub_directories[j].id != info@.id),
            decreases self.sub_directories.len() - i,
        {
            assert(self@.sub_directories[i as int] == self.sub_directories@[i as int]@);
            if *self.sub_directories[i].get_name() == *info.get_name()
                && !self.sub_directories[i].get_id().same(info.get_id()) {
                return true;
            }
            i += 1;
        }
        false
    }

    /// Why `info` cannot be put among the sub-directories, if it cannot.
    pub fn check_sub_directory(&self, info: &DirectoryInfo) -> (r: Result<(), NfsError>)
        ensures
            r == match self@.refusal(info@) {
                Some(e) => Err::<(), NfsError>(e),
                None => Ok(()),
            },
    {
        if info.name.as_str().is_empty() {
            return Err(NfsError::NameIsEmpty);
        }
        if self.is_name_taken(info) {
            return Err(NfsError::AlreadyExists);
        }
        Ok(())
    }

    /// Puts `info` in the place of the sub-directory with its identifier,
    /// or at the end where there is none, and stamps the listing with `now`.
    /// Refuses an empty name, and a name that another sub-directory has.
    pub fn upsert_sub_directory(&mut self, info: DirectoryInfo, now: Timestamp) -> (r: Result<
        (),
        NfsError,
    >)
        ensures
            r == match old(self)@.refusal(info@) {
                Some(e) => Err::<(), NfsError>(e),
                None => Ok(()),
            },
            r is Ok ==> final(self)@ == old(self)@.with_sub_directory(info@, now),
            r is Err ==> final(self)@ == old(self)@,
            old(self)@.wf() ==> final(self)@.wf(),
    {
        if info.name.as_str().is_empty() {
            return Err(NfsError::NameIsEmpty);
        }
        if self.is_name_taken(&info) {
            return Err(NfsError::AlreadyExists);
        }
        let ghost before = self@;
        let ghost added = info@;
        match self.get_sub_directory_index_by_id(info.get_id()) {
            Some(i) => {
                self.sub_directories.set(i, info);
                assert(views(self.sub_directories@) =~= before.sub_directories.update(
                    i as int,
                    added,
                ));
                proof {
                    lemma_position(before.sub_directories, directory_with_id(added.id));
                    if before.wf() {
                        let after = before.sub_directories.update(i as int, added);
                        assert forall|a: int, b: int| 0 <= a < b < after.len() implies (
                        #[trigger] after[a]).name != (#[trigger] after[b]).name by {
                            if a == i as int {
                                assert(before.sub_directories[b].id != added.id);
                                assert(before.sub_directories[b].name != added.name);
                            } else if b == i as int {
                                assert(before.sub_directories[a].id != added.id);
                                assert(before.sub_directories[a].name != added.name);
                            }
                        }
                        assert forall|a: int, b: int| 0 <= a < b < after.len() implies (
                        #[trigger] after[a]).id != (#[trigger] after[b]).id by {
                            assert(before.sub_directories[a].id != before.sub_directories[b].id);
                        }
                    }
                }
            },
            None => {
                self.sub_directories.push(info);
                assert(views(self.sub_directories@) =~= before.sub_directories.push(added));
                proof {
                    lemma_position(before.sub_directories, directory_with_id(added.id));
                    if before.wf() {
                        let after = before.sub_directories.push(added);
                        assert forall|a: int, b: int| 0 <= a < b < after.len() implies (
                        #[trigger] after[a]).name != (#[trigger] after[b]).name by {
                            if b == after.len() - 1 {
                                assert(!directory_with_id(added.id)(before.sub_directories[a]));
                                assert(before.sub_directories[a].name != added.name);
                            }
                        }
                        assert forall|a: int, b: int| 0 <= a < b < after.len() implies (
                        #[trigger] after[a]).id != (#[trigger] after[b]).id by {
                            if b == after.len() - 1 {
                                assert(!directory_with_id(added.id)(before.sub_directories[a]));
                            }
                        }
                    }
                }
            },
        }
        self.info.set_modified_time(now);
        Ok(())
    }

    /// Puts `file` in the place of the file with its name, or at the end
    /// where there is none, and stamps the listing with `now`. Refuses an
    /// empty name.
    pub fn upsert_file(&mut self, file: File, now: Timestamp) -> (r: Result<(), NfsError>)
        ensures
            file@.metadata.name.len() == 0 ==> r == Err::<(), NfsError>(NfsError::NameIsEmpty),
            file@.metadata.name.len() != 0 ==> r is Ok,
            r is Ok ==> final(self)@ == old(self)@.with_file(file@, now),
            r is Err ==> final(self)@ == old(self)@,
            old(self)@.wf() ==> final(self)@.wf(),
    {
        if file.metadata.name.as_str().is_empty() {
            return Err(NfsError::NameIsEmpty);
        }
        let ghost before = self@;
        let ghost added = file@;
        match self.get_file_index(file.get_name()) {
            Some(i) => {
                self.files.set(i, file);
                assert(views(self.files@) =~= before.files.update(i as int, added));
                proof {
                    lemma_position(before.files, file_named(added.metadata.name));
                    if before.wf() {
                        let after = before.files.update(i as int, added);
                        assert forall|a: int, b: int| 0 <= a < b < after.len() implies (
                        #[trigger] after[a]).metadata.name != (
                        #[trigger] after[b]).metadata.name by {
                            assert(before.files[a].metadata.name != before.files[b].metadata.name);
                        }
                    }
                }
            },
            None => {
                self.files.push(file);
                assert(views(self.files@) =~= before.files.push(added));
                proof {
                    lemma_position(before.files, file_named(added.metadata.name));
                    if before.wf() {
                        let after = before.files.push(added);
                        assert forall|a: int, b: int| 0 <= a < b < after.len() implies (
                        #[trigger] after[a]).metadata.name != (
                        #[trigger] after[b]).metadata.name by {
                            if b == after.len() - 1 {
                                assert(!file_named(added.metadata.name)(before.files[a]));
                            }
                        }
                    }
                }
            },
        }
        self.info.set_modified_time(now);
        Ok(())
    }

    /// Takes the sub-directory at `index` out of the listing.
    pub fn remove_sub_directory(&mut self, index: usize) -> (r: DirectoryInfo)
        requires
            index < old(self)@.sub_directories.len(),
        ensures
            r@ == old(self)@.sub_directories[index as int],
            final(self)@ == old(self)@.without_sub_directory(index as int),
            old(self)@.wf() ==> final(self)@.wf(),
    {
        let ghost before = self@;
        let r = self.sub_directories.remove(index);
        assert(views(self.sub_directories@) =~= before.sub_directories.remove(index as int));
        assert(before.sub_directories[index as int] == r@);
        proof {
            if before.wf() {
                let after = before.sub_directories.remove(index as int);
                assert forall|a: int, b: int| 0 <= a < b < after.len() implies (
                #[trigger] after[a]).name != (#[trigger] after[b]).name && after[a].id
                    != after[b].id by {
                    let a0 = if a < index { a } else { a + 1 };
                    let b0 = if b < index { b } else { b + 1 };
                    assert(before.sub_directories[a0].name != before.sub_directories[b0].name);
                    assert(before.sub_directories[a0].id != before.sub_directories[b0].id);
                }
            }
        }
        r
    }

    /// Takes the file at `index` out of the listing.
    pub fn remove_file(&mut self, index: usize) -> (r: File)
        requires
            index < old(self)@.files.len(),
        ensures
            r@ == old(self)@.files[index as int],
            final(self)@ == old(self)@.without_file(index as int),
            old(self)@.wf() ==> final(self)@.wf(),
    {
        let ghost before = self@;
        let r = self.files.remove(index);
        assert(views(self.files@) =~= before.files.remove(index as int));
        assert(before.files[index as int] == r@);
        proof {
            if before.wf() {
                let after = before.files.remove(index as int);
                assert forall|a: int, b: int| 0 <= a < b < after.len() implies (
                #[trigger] after[a]).metadata.name != (#[trigger] after[b]).metadata.name by {
                    let a0 = if a < index { a } else { a + 1 };
                    let b0 = if b < index { b } else { b + 1 };
                    assert(before.files[a0].metadata.name != before.files[b0].metadata.name);
                }
            }
        }
        r
    }

    pub fn get_info(&self) -> (r: &DirectoryInfo)
        ensures
            r@ == self@.info,
    {
        &self.info
    }

    pub fn get_metadata(&self) -> (r: &DirectoryInfo)
        ensures
            r@ == self@.info,
    {
        &self.info
    }

    pub fn get_key(&self) -> (r: (&NetworkName, u64))
        ensures
            r.0@ == self@.info.id,
            r.1 == self@.info.type_tag,
    {
        self.info.get_key()
    }

    pub fn get_sub_directories(&self) -> (r: &Vec<DirectoryInfo>)
        ensures
            views(r@) == self@.sub_directories,
    {
        &self.sub_directories
    }

    pub fn get_files(&self) -> (r: &Vec<File>)
        ensures
            views(r@) == self@.files,
    {
        &self.files
    }

    /// The first file named `name`.
    pub fn find_file(&self, name: &String) -> (r: Option<&File>)
        ensures
            match r {
                Some(f) => self@.find_file(name@) == Some(f@),
                None => self@.find_file(name@) is None,
            },
    {
        match self.get_file_index(name) {
            Some(i) => {
                assert(self@.files[i as int] == self.files@[i as int]@);
                Some(&self.files[i])
            },
            None => None,
        }
    }

    /// The first sub-directory named `name`.
    pub fn find_sub_directory(&self, name: &String) -> (r: Option<&DirectoryInfo>)
        ensures
            match r {
                Some(d) => self@.find_sub_directory(name@) == Some(d@),
                None => self@.find_sub_directory(name@) is None,
            },
    {
        match self.get_sub_directory_index(name) {
            Some(i) => {
                assert(self@.sub_directories[i as int] == self.sub_directories@[i as int]@);
                Some(&self.sub_directories[i])
            },
            None => None,
        }
    }
}

} // verus!
