//! The character: identity, currency balance and where it stands, in the
//! world and, while inside an instance, in that instance's own space.

use vstd::prelude::*;
use crate::error::{GameError, ValidationFault};
use crate::spatial::Location;

verus! {

/// Where a character is: in the open world, or inside an instance at a
/// point of the instance's own space.
#[derive(Clone, Copy, Debug, PartialEq, Eq, Structural)]
pub enum Placement {
    World(Location),
    Instanced(Location, u128),
}

/// What a [`Character`] stands for.
pub struct CharacterView {
    pub id: u128,
    pub name: Seq<char>,
    pub digidollar: int,
    pub game_server_id: i16,
    pub area_id: i16,
    pub location: Location,
    /// The instance the character is inside and its place there. Both at
    /// once or neither.
    pub instance: Option<(u128, Location)>,
    pub keycloak_user_id: u128,
    pub creation_date: i128,
    pub playtime: int,
}

pub struct Character {
    id: u128,
    name: String,
    digidollar: i32,
    game_server_id: i16,
    area_id: i16,
    location: Location,
    instance: Option<(u128, Location)>,
    keycloak_user_id: u128,
    creation_date: i128,
    playtime: i64,
}

impl View for Character {
    type V = CharacterView;

    closed spec fn view(&self) -> CharacterView {
        CharacterView {
            id: self.id,
            name: self.name@,
            digidollar: self.digidollar as int,
            game_server_id: self.game_server_id,
            area_id: self.area_id,
            location: self.location,
            instance: self.instance,
            keycloak_user_id: self.keycloak_user_id,
            creation_date: self.creation_date,
            playtime: self.playtime as int,
        }
    }
}

impl CharacterView {
    pub open spec fn wf(self) -> bool {
        &&& 0 <= self.digidollar <= i32::MAX
        &&& 0 <= self.playtime <= i64::MAX
        &&& self.location.wf()
        &&& self.instance matches Some((_, place)) ==> place.wf()
    }

    pub open spec fn instance_id(self) -> Option<u128> {
        match self.instance {
            Some((id, _)) => Some(id),
            None => None,
        }
    }

    pub open spec fn instance_location(self) -> Option<Location> {
        match self.instance {
            Some((_, place)) => Some(place),
            None => None,
        }
    }

    /// The instance and the place inside it are set together or not at all.
    pub proof fn lemma_instance_fields_agree(self)
        ensures
            self.instance_id() is Some <==> self.instance_location() is Some,
    {
    }
}

impl Character {
    pub open spec fn wf(&self) -> bool {
        self@.wf()
    }

    /// What `from_row` returns for a stored row, as far as it can fail.
    pub open spec fn spec_row_fault(
        digidollar: i32,
        instance_id: Option<u128>,
        instance_location: Option<Location>,
        playtime: i64,
    ) -> Option<GameError> {
        if digidollar < 0 || playtime < 0 {
            Some(GameError::ValidationError(ValidationFault::BadAmount))
        } else if instance_id is Some != instance_location is Some {
            Some(GameError::ValidationError(ValidationFault::Inconsistent))
        } else {
            None
        }
    }

    /// A character as registration creates it: in the open world, with no
    /// currency and no playtime.
    pub fn new(
        id: u128,
        name: String,
        game_server_id: i16,
        area_id: i16,
        location: Location,
        keycloak_user_id: u128,
        creation_date: i128,
    ) -> (c: Character)
        requires
            location.wf(),
        ensures
            c.wf(),
            c@ == (CharacterView {
                id,
                name: name@,
                digidollar: 0,
                game_server_id,
                area_id,
                location,
                instance: None,
                keycloak_user_id,
                creation_date,
                playtime: 0,
            }),
    {
        Character {
            id,
            name,
            digidollar: 0,
            game_server_id,
            area_id,
            location,
            instance: None,
            keycloak_user_id,
            creation_date,
            playtime: 0,
        }
    }

    /// A character from its stored row. A negative balance or playtime is
    /// refused, and so is an instance without a place in it or a place
    /// without an instance.
    pub fn from_row(
        id: u128,
        name: String,
        digidollar: i32,
        game_server_id: i16,
        area_id: i16,
        location: Location,
        instance_id: Option<u128>,
        instance_location: Option<Location>,
        keycloak_user_id: u128,
        creation_date: i128,
        playtime: i64,
    ) -> (r: Result<Character, GameError>)
        requires
            location.wf(),
            instance_location matches Some(place) ==> place.wf(),
        ensures
            match Self::spec_row_fault(digidollar, instance_id, instance_location, playtime) {
                Some(e) => r == Err::<Character, GameError>(e),
                None => r is Ok,
            },
            r matches Ok(c) ==> c.wf() && c@ == (CharacterView {
                id,
                name: name@,
                digidollar: digidollar as int,
                game_server_id,
                area_id,
                location,
                instance: match (instance_id, instance_location) {
                    (Some(i), Some(place)) => Some((i, place)),
                    _ => None,
                },
                keycloak_user_id,
                creation_date,
                playtime: playtime as int,
            }),
    {
        if digidollar < 0 || playtime < 0 {
            return Err(GameError::ValidationError(ValidationFault::BadAmount));
        }
        let instance = match (instance_id, instance_location) {
            (Some(i), Some(place)) => Some((i, place)),
            (None, None) => None,
            _ => {
                return Err(GameError::ValidationError(ValidationFault::Inconsistent));
            },
        };
        Ok(
            Character {
                id,
                name,
                digidollar,
                game_server_id,
                area_id,
                location,
                instance,
                keycloak_user_id,
                creation_date,
                playtime,
            },
        )
    }

    pub fn id(&self) -> (r: u128)
        ensures
            r == self@.id,
    {
        self.id
    }

    pub fn name(&self) -> (r: &String)
        ensures
            r@ == self@.name,
    {
        &self.name
    }

    pub fn digidollar(&self) -> (r: i32)
        ensures
            r == self@.digidollar,
    {
        self.digidollar
    }

    pub fn game_server_id(&self) -> (r: i16)
        ensures
            r == self@.game_server_id,
    {
        self.game_server_id
    }

    pub fn area_id(&self) -> (r: i16)
        ensures
            r == self@.area_id,
    {
        self.area_id
    }

    /// The character's place in the open world. It is kept while the
    /// character is inside an instance.
    pub fn location(&self) -> (r: Location)
        ensures
            r == self@.location,
    {
        self.location
    }

    pub fn instance_id(&self) -> (r: Option<u128>)
        ensures
            r == self@.instance_id(),
    {
        match self.instance {
            Some((id, _)) => Some(id),
            None => None,
        }
    }

    pub fn instance_location(&self) -> (r: Option<Location>)
        ensures
            r == self@.instance_location(),
    {
        match self.instance {
            Some((_, place)) => Some(place),
            None => None,
        }
    }

    pub fn keycloak_user_id(&self) -> (r: u128)
        ensures
            r == self@.keycloak_user_id,
    {
        self.keycloak_user_id
    }

    pub fn creation_date(&self) -> (r: i128)
        ensures
            r == self@.creation_date,
    {
        self.creation_date
    }

    pub fn playtime(&self) -> (r: i64)
        ensures
            r == self@.playtime,
    {
        self.playtime
    }

    /// Whether the character belongs to the given user. The identifier is
    /// opaque: it is compared and never interpreted.
    pub fn is_owned_by(&self, user_id: u128) -> (b: bool)
        ensures
            b == (self@.keycloak_user_id == user_id),
    {
        self.keycloak_user_id == user_id
    }

    pub fn placement(&self) -> (p: Placement)
        ensures
            p == match self@.instance {
                Some((id, place)) => Placement::Instanced(place, id),
                None => Placement::World(self@.location),
            },
    {
        match self.instance {
            Some((id, place)) => Placement::Instanced(place, id),
            None => Placement::World(self.location),
        }
    }

    /// Adds to the balance. An amount below zero is refused, and so is one
    /// that the balance cannot hold.
    pub fn credit(&mut self, amount: i32) -> (r: Result<(), GameError>)
        requires
            old(self).wf(),
        ensures
            final(self).wf(),
            r is Ok <==> 0 <= amount && old(self)@.digidollar + amount <= i32::MAX,
            r matches Err(e) ==> e == GameError::ValidationError(ValidationFault::BadAmount)
                && *final(self) == *old(self),
            r is Ok ==> final(self)@ == (CharacterView {
                digidollar: old(self)@.digidollar + amount,
                ..old(self)@
            }),
    {
        if amount < 0 || self.digidollar > i32::MAX - amount {
            return Err(GameError::ValidationError(ValidationFault::BadAmount));
        }
        self.digidollar = self.digidollar + amount;
        Ok(())
    }

    /// Takes from the balance, which never goes below zero.
    pub fn debit(&mut self, amount: i32) -> (r: Result<(), GameError>)
        requires
            old(self).wf(),
        ensures
            final(self).wf(),
            r is Err ==> *final(self) == *old(self),
            r is Ok <==> 0 <= amount <= old(self)@.digidollar,
            r == Err::<(), GameError>(GameError::ValidationError(ValidationFault::BadAmount))
                <==> amount < 0,
            r == Err::<(), GameError>(GameError::InsufficientFunds) <==> 0 <= amount && old(
                self,
            )@.digidollar < amount,
            r is Ok ==> final(self)@ == (CharacterView {
                digidollar: old(self)@.digidollar - amount,
                ..old(self)@
            }),
    {
        if amount < 0 {
            return Err(GameError::ValidationError(ValidationFault::BadAmount));
        }
        if self.digidollar < amount {
            return Err(GameError::InsufficientFunds);
        }
        self.digidollar = self.digidollar - amount;
        Ok(())
    }

    /// Counts played time. The counter only grows.
    pub fn record_playtime(&mut self, seconds: i64) -> (r: Result<(), GameError>)
        requires
            old(self).wf(),
        ensures
            final(self).wf(),
            r is Ok <==> 0 <= seconds && old(self)@.playtime + seconds <= i64::MAX,
            r matches Err(e) ==> e == GameError::ValidationError(ValidationFault::BadAmount)
                && *final(self) == *old(self),
            r is Ok ==> final(self)@ == (CharacterView {
                playtime: old(self)@.playtime + seconds,
                ..old(self)@
            }),
            final(self)@.playtime >= old(self)@.playtime,
    {
        if seconds < 0 || self.playtime > i64::MAX - seconds {
            return Err(GameError::ValidationError(ValidationFault::BadAmount));
        }
        self.playtime = self.playtime + seconds;
        Ok(())
    }

    /// Moves the character within the space it is in: inside an instance
    /// the place in the instance changes, else the place in the world.
    pub fn move_to(&mut self, place: Location)
        requires
            old(self).wf(),
            place.wf(),
        ensures
            final(self).wf(),
            final(self)@ == match old(self)@.instance {
                Some((id, _)) => CharacterView { instance: Some((id, place)), ..old(self)@ },
                None => CharacterView { location: place, ..old(self)@ },
            },
    {
        match self.instance {
            Some((id, _)) => {
                self.instance = Some((id, place));
            },
            None => {
                self.location = place;
            },
        }
    }

    /// Puts the character inside an instance. Whether it may enter is not
    /// decided here.
    pub(crate) fn set_instance(&mut self, instance_id: u128, place: Location)
        requires
            old(self).wf(),
            place.wf(),
        ensures
            final(self).wf(),
            final(self)@ == (CharacterView {
                instance: Some((instance_id, place)),
                ..old(self)@
            }),
    {
        self.instance = Some((instance_id, place));
    }

    /// Leaving an instance clears the instance and the place in it
    /// together. Outside an instance nothing changes.
    pub fn leave_instance(&mut self)
        requires
            old(self).wf(),
        ensures
            final(self).wf(),
            final(self)@ == (CharacterView { instance: None, ..old(self)@ }),
            final(self)@.instance_id() is None,
            final(self)@.instance_location() is None,
    {
        self.instance = None;
    }
}

} // verus!
