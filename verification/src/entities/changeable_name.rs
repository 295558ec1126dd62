use vstd::prelude::*;

verus! {

/// Hands out entity names, keeping them unique. An implementation writes
/// the spec functions below as functions of its state and the asked name,
/// and its methods are held to them (believed, not proved, for
/// implementations outside this crate).
pub trait NameRepository {
    /// The name `generate_name` hands out for `name` in this state.
    spec fn generated_name(&self, name: &str) -> String;

    /// The repository after handing out a name like `name`.
    spec fn after_generate(&self, name: &str) -> Self where Self: Sized;

    /// Whether `name` itself is free to be taken in this state.
    spec fn can_take(&self, name: &str) -> bool;

    /// The repository after `name` has been taken.
    spec fn after_take(&self, name: &str) -> Self where Self: Sized;

    /// A free name like `name`.
    fn generate_name(&mut self, name: &str) -> (r: String)
        where Self: Sized
        ensures
            r@ == old(self).generated_name(name)@,
            *final(self) == old(self).after_generate(name),
    ;

    /// `name` itself, if it is free; a refusal leaves the repository as it was.
    fn take_name(&mut self, name: &str) -> (r: Result<String, ()>)
        where Self: Sized
        ensures
            r is Ok <==> old(self).can_take(name),
            r matches Ok(taken) ==> taken@ == name@ && *final(self) == old(self).after_take(name),
            r is Err ==> *final(self) == *old(self),
    ;
}

/// An entity's name and the text of its rename box.
pub struct ChangeableName {
    pub name: String,
    pub rename: String,
}

impl ChangeableName {
    /// A name like `name`, as the repository gives it; the rename box starts
    /// with the same text.
    pub fn new<R: NameRepository>(name: &str, name_repo: &mut R) -> (r: ChangeableName)
        ensures
            r.name@ == old(name_repo).generated_name(name)@,
            r.rename@ == r.name@,
            *final(name_repo) == old(name_repo).after_generate(name),
    {
        let name = name_repo.generate_name(name);
        Self::from_name(name)
    }

    /// The name the repository gave, shown in the rename box too.
    pub fn from_name(name: String) -> (r: ChangeableName)
        ensures
            r.name@ == name@,
            r.rename@ == name@,
    {
        ChangeableName { rename: name.clone(), name }
    }

    pub fn name(&self) -> (r: String)
        ensures
            r@ == self.name@,
    {
        self.name.clone()
    }

    /// `name` if the repository lets it be taken, else a free name like it.
    pub fn set_similar_name<R: NameRepository>(&mut self, name: &str, name_repo: &mut R)
        ensures
            (if old(name_repo).can_take(name) {
                final(self).name@ == name@ && *final(name_repo) == old(name_repo).after_take(name)
            } else {
                final(self).name@ == old(name_repo).generated_name(name)@ && *final(name_repo)
                    == old(name_repo).after_generate(name)
            }),
            final(self).rename@ == final(self).name@,
    {
        let new_name = match name_repo.take_name(name) {
            Ok(new_name) => new_name,
            Err(_) => name_repo.generate_name(name),
        };
        self.adopt_name(new_name);
    }

    /// Takes the name the repository gave; the rename box shows it too.
    pub fn adopt_name(&mut self, name: String)
        ensures
            final(self).name@ == name@,
            final(self).rename@ == name@,
    {
        self.name = name.clone();
        self.rename = name;
    }
}

} // verus!
