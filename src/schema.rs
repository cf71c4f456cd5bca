//! The fixed column layout of a power file: the sentinel line, the header
//! line, and the semantic type of each column.
use vstd::prelude::*;

verus! {

/// First line of a power file; it marks the format and holds no data.
pub const SENTINEL: &'static str = "powerTypes";

/// The header line: every column name, in the order the cells of a row use.
pub const COLUMN_HEADER: &'static str = "PowerName,PowerID,OrderID,DevNotes,MissionTags,Priority,CastSoundEvent,HitSoundEvent,ItemHitSoundEvent,TargetMethod,ParentItem,OriginPower,IsAirPower,IsSignature,IsAntiair,SigModeSwapsMove,AoERadiusX,AoERadiusY,CenterOffsetX,CenterOffsetY,CastImpulseX,CastImpulseY,FireImpulseX,FireImpulseY,FireImpulseMaxX,ImpulseMaxOnDCOnly,SpeedLimit,SpeedLimitY,SpeedLimitAttack,SpeedLimitBackward,SpeedLimitAttackBackward,SelfImpulseOnHit,EndOnHit,CancelGravity,WallCancel,AllowMove,AllowRecoverMove,AllowJumpDuringRecover,AllowLeaveGround,AllowHitOnZeroDamage,AccelMult,BackwardAccelMult,TurnOffDampening,KeepGroundFriction,IgnoreGroundRestrict,DoNotBounceOffNoSlideCeiling,NoSlideCeilingBuffer,CastAnim,Hurtbox,CastTime,FixedRecoverTime,RecoverTime,AntigravTime,GCancelTime,IgnoreForcedFallTime,ShowCloudTime,CooldownTime,IgnoreCDOverride,OnHitCooldownTime,ShakeTime,DisableShake,OnlyShakeOnce,ShakeAllCams,FixedMinChargeTime,MinCancelTime,LoseInvulnTime,BaseDamage,VariableImpulse,FixedImpulse,MinimumImpulse,PostHitDamageMultiplier,PostHitImpulseMultiplier,ImpulseOffsetX,ImpulseOffsetY,ImpulseOffsetMaxX,ImpulseToPoint,ToPointChangeX,ToPointChangeY,ToPointChangeDmg,LockTo45Degrees,DownwardForceMult,MirrorImpulseOffset,MirrorOffsetCenter,IgnoreStrength,AcceptInput,HeldDirOffsets,DIMaxAngle,ImpulseOnHeavy,ItemSpeedDamage,ItemSpeedImpulse,ItemHitElasticity,AirTimeMultOnly,IsMultihit,MinTimeBetweenHits,InheritAlreadyHit,InterruptThreshold,CanDamageEveryone,CanAssist,ConsumesWeapon,FixedStunTime,HoldHitEnts,HoldOffsetX,HoldOffsetY,UpdateHeldEnts,DestroysItemOnHit,GrabInterpolateTime,GrabAnim,GrabAnimSpeed,GrabForceUpdate,Uninterruptable,CanChangeDirection,ComboName,ComboOverrideIfHit,ComboOverrideIfRelease,ComboOverrideIfWall,ComboOverrideIfButton,OriginOverrideIfInMode,ComboOverrideIfDir,ComboOverrideIfInterrupt,IgnoreButtonOnHit,IgnoreButtonOnMiss,ComboUseSameTargetPos,UseCollisionAsTargetPos,ComboUseTargetAsSource,ComboUseSameSourcePos,BGPowerOnFire,BGCastIdx,AllowBGInterrupt,PopulateActivePowerHits,PopulateBGHits,ExhaustedVersion,GCVersion,MomentumVersion,TeamTauntPower,AnimLayer,FXLayer,IsWorldCastGfx,CustomArtCastGfx,DelayCastGfxToFirstFire,DelayCastGFXCleanUp,CastAnimSource,DoNotSendSync,IsThrow,CannotAttackAroundCorners,ForceHitThroughSoftPlat,ForceFaceRight,CollisionPowerOffSetX,CollisionPowerOffSetY,CastGfx.AnimFile,CastGfx.AnimClass,CastGfx.AnimScale,CastGfx.FireAndForget,CastGfx.MoveAnimSpeed,CastGfx.FlipAnim,CastGfx.Tint,CastGfxRotation,IsWorldFireGfx,IsAttackFireGfx,CustomArtFireGfx,FireAnimSource,FireGfx.AnimFile,FireGfx.AnimClass,FireGfx.AnimScale,FireGfx.FireAndForget,FireGfx.MoveAnimSpeed,FireGfx.FlipAnim,FireGfx.Tint,FireGfxRotation,IsWorldHitGfx,OnlyOnceHitGfx,OwnerFacingHitGfx,PlayHitGfxBehind,HitAnimSource,HitReactAnim,HitGfx.AnimFile,HitGfx.AnimClass,HitGfx.AnimScale,HitGfx.FireAndForget,HitGfx.Tint";

/// Number of columns a power record has.
pub const COLUMN_COUNT: usize = 179;

/// One letter per column, in header order: `t` text, `i` integer,
/// `n` decimal number, `b` boolean flag.
pub const COLUMN_KINDS: &'static str = "tiittittttttbbbbnnnnnnnnnbnnnnnbbbbbbbbbnnbbbbnttiiiiiiiibiibbbiiiinnnnnnnnbnnibnbbbttnbinnbbibibbbibnnbbitnbbbttttttttbbbbbbtibbbttttiibtbbtbbbbbnnttnbnbtnbbttttnbnbtnbbbbttttnbt";

/// The semantic type of a column.
#[derive(Clone, Copy, Debug, PartialEq, Eq, Structural)]
pub enum FieldKind {
    Text,
    Integer,
    Number,
    Flag,
}

pub open spec fn kind_of_letter(c: char) -> FieldKind {
    if c == 'i' {
        FieldKind::Integer
    } else if c == 'n' {
        FieldKind::Number
    } else if c == 'b' {
        FieldKind::Flag
    } else {
        FieldKind::Text
    }
}

/// The kind of column `i`.
pub open spec fn column_kind(i: int) -> FieldKind {
    kind_of_letter(COLUMN_KINDS@[i])
}

pub proof fn lemma_kinds_cover_columns()
    ensures
        COLUMN_KINDS@.len() == COLUMN_COUNT,
{
    reveal_strlit("tiittittttttbbbbnnnnnnnnnbnnnnnbbbbbbbbbnnbbbbnttiiiiiiiibiibbbiiiinnnnnnnnbnnibnbbbttnbinnbbibibbbibnnbbitnbbbttttttttbbbbbbtibbbttttiibtbbtbbbbbnnttnbnbtnbbttttnbnbtnbbbbttttnbt");
}

/// The kind of column `i`, read from the layout table.
pub fn kind_at(i: usize) -> (k: FieldKind)
    requires
        i < COLUMN_COUNT,
    ensures
        k == column_kind(i as int),
{
    proof {
        lemma_kinds_cover_columns();
    }
    let c = COLUMN_KINDS.get_char(i);
    if c == 'i' {
        FieldKind::Integer
    } else if c == 'n' {
        FieldKind::Number
    } else if c == 'b' {
        FieldKind::Flag
    } else {
        FieldKind::Text
    }
}

} // verus!
